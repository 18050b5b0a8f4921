//! Hook variable extraction.
//!
//! A hook's variables are drawn from the event payload by field-path
//! queries such as `.flags.online`. A query names a chain of object
//! members; the value found there is encoded for the environment of a
//! shell script: a string stands as it is, `true` becomes the empty
//! string and `false` becomes `"1"` — an inverted encoding kept for
//! compatibility, so a script can read a present, non-empty variable as
//! "false" — and anything else is written as its JSON text.

use vstd::prelude::*;

use crate::config;
use crate::json::{chars_of, json_text, path_value, views_of, JsonData, JsonValue};

verus! {

/// What can go wrong when a hook is run: no hook of that name, a
/// non-zero exit, or an I/O failure talking to the process.
#[derive(Clone, Debug)]
pub enum HookError {
    NoHook,
    ExitError(i32),
    IOError(String),
}

/// The text a field path is written as: a dot before each segment.
pub open spec fn query_text_of(path: Seq<Seq<char>>) -> Seq<char>
    decreases path.len(),
{
    if path.len() == 0 {
        Seq::empty()
    } else {
        query_text_of(path.drop_last()) + seq!['.'] + path.last()
    }
}

/// A usable path: every segment is non-empty and free of dots.
pub open spec fn valid_path(path: Seq<Seq<char>>) -> bool {
    forall|i: int| 0 <= i < path.len() ==> (#[trigger] path[i]).len() > 0 && !path[i].contains('.')
}

/// The shape a written field path has: it opens with a dot, never ends
/// on one, and never has two in a row.
pub open spec fn shaped_query(q: Seq<char>) -> bool {
    &&& q.len() >= 2
    &&& q[0] == '.'
    &&& q[q.len() - 1] != '.'
    &&& forall|i: int| 0 <= i < q.len() - 1 ==> !((#[trigger] q[i]) == '.' && q[i + 1] == '.')
}

/// The text of a non-empty usable path is shaped.
pub proof fn lemma_query_text_shape(path: Seq<Seq<char>>)
    requires
        valid_path(path),
        path.len() > 0,
    ensures
        shaped_query(query_text_of(path)),
    decreases path.len(),
{
    let q = query_text_of(path);
    let seg = path.last();
    assert(seg.len() > 0 && !seg.contains('.'));
    assert(forall|i: int| 0 <= i < seg.len() ==> seg[i] != '.');
    if path.len() == 1 {
        assert(query_text_of(path.drop_last()) =~= Seq::<char>::empty());
        assert(q =~= seq!['.'] + seg);
        assert(q[0] == '.');
        assert(q[q.len() - 1] == seg[seg.len() - 1]);
        assert forall|i: int| 0 <= i < q.len() - 1 implies !((#[trigger] q[i]) == '.' && q[i + 1]
            == '.') by {
            if i > 0 {
                assert(q[i] == seg[i - 1]);
            } else {
                assert(q[1] == seg[0]);
            }
        }
    } else {
        let prev = query_text_of(path.drop_last());
        assert(valid_path(path.drop_last())) by {
            assert(forall|i: int| 0 <= i < path.len() - 1 ==> path.drop_last()[i] == path[i]);
        }
        lemma_query_text_shape(path.drop_last());
        assert(q =~= prev + seq!['.'] + seg);
        assert(q[0] == prev[0]);
        assert(q[q.len() - 1] == seg[seg.len() - 1]);
        assert forall|i: int| 0 <= i < q.len() - 1 implies !((#[trigger] q[i]) == '.' && q[i + 1]
            == '.') by {
            if i < prev.len() - 1 {
                assert(q[i] == prev[i] && q[i + 1] == prev[i + 1]);
            } else if i == prev.len() - 1 {
                assert(q[i] == prev[prev.len() - 1]);
            } else if i == prev.len() {
                assert(q[i + 1] == seg[0]);
            } else {
                assert(q[i] == seg[i - prev.len() - 1]);
            }
        }
    }
}

/// Reads a field-path query. `.` alone names the whole payload; anything
/// else must be a shaped path, whose segments come back in order. A
/// malformed query — empty, not opening with a dot, ending on one, or
/// with an empty segment — is refused.
#[verifier::loop_isolation(false)]
pub fn parse_query(q: &str) -> (r: Option<Vec<String>>)
    ensures
        r is Some <==> (q@ =~= seq!['.'] || shaped_query(q@)),
        r matches Some(p) ==> valid_path(views_of(p@)) && (if q@ =~= seq!['.'] {
            p@.len() == 0
        } else {
            query_text_of(views_of(p@)) == q@
        }),
{
    let cs = chars_of(q);
    if cs.len() == 0 {
        return None;
    }
    if cs[0] != '.' {
        return None;
    }
    if cs.len() == 1 {
        proof {
            assert(q@ =~= seq!['.']);
        }
        return Some(Vec::new());
    }
    let mut segs: Vec<String> = Vec::new();
    let mut cur: Vec<char> = Vec::new();
    let mut i: usize = 1;
    proof {
        assert(views_of(segs@) =~= Seq::<Seq<char>>::empty());
        assert(query_text_of(views_of(segs@)) + seq!['.'] + cur@ =~= q@.take(1));
    }
    while i < cs.len()
        invariant
            1 <= i <= cs.len(),
            cs@ == q@,
            valid_path(views_of(segs@)),
            !cur@.contains('.'),
            query_text_of(views_of(segs@)) + seq!['.'] + cur@ == q@.take(i as int),
        decreases cs.len() - i,
    {
        let c = cs[i];
        if c == '.' {
            if cur.len() == 0 {
                proof {
                    assert(q@[i - 1] == '.' && q@[i as int] == '.') by {
                        let t = query_text_of(views_of(segs@)) + seq!['.'] + cur@;
                        assert(t.last() == '.');
                        assert(q@.take(i as int)[i - 1] == q@[i - 1]);
                    }
                    assert(!shaped_query(q@));
                    assert(q@ !~= seq!['.']);
                }
                return None;
            }
            let seg = crate::json::string_from_chars(&cur);
            let ghost old_segs = views_of(segs@);
            segs.push(seg);
            cur = Vec::new();
            proof {
                assert(views_of(segs@) =~= old_segs.push(seg@));
                assert(views_of(segs@).drop_last() =~= old_segs);
                assert(valid_path(views_of(segs@))) by {
                    assert(forall|j: int| 0 <= j < old_segs.len() ==> views_of(segs@)[j]
                        == old_segs[j]);
                }
                assert(query_text_of(views_of(segs@)) + seq!['.'] + cur@ =~= q@.take(i + 1));
            }
        } else {
            cur.push(c);
            proof {
                assert(query_text_of(views_of(segs@)) + seq!['.'] + cur@ =~= q@.take(i + 1));
            }
        }
        i = i + 1;
    }
    if cur.len() == 0 {
        proof {
            assert(q@[q@.len() - 1] == '.') by {
                let t = query_text_of(views_of(segs@)) + seq!['.'] + cur@;
                assert(q@.take(cs@.len() as int) =~= q@);
                assert(t.last() == '.');
            }
            assert(!shaped_query(q@));
            assert(q@ !~= seq!['.']);
        }
        return None;
    }
    let seg = crate::json::string_from_chars(&cur);
    let ghost old_segs = views_of(segs@);
    segs.push(seg);
    proof {
        assert(views_of(segs@) =~= old_segs.push(seg@));
        assert(views_of(segs@).drop_last() =~= old_segs);
        assert(valid_path(views_of(segs@))) by {
            assert(forall|j: int| 0 <= j < old_segs.len() ==> views_of(segs@)[j] == old_segs[j]);
        }
        assert(q@.take(cs@.len() as int) =~= q@);
        assert(query_text_of(views_of(segs@)) =~= q@);
        lemma_query_text_shape(views_of(segs@));
        assert(q@ !~= seq!['.']);
    }
    Some(segs)
}

/// The value a hook variable takes from a payload, under the inverted
/// boolean encoding: a string as it is, `true` as the empty string,
/// `false` as `"1"`, and anything else — a missing field reads as null —
/// as its JSON text.
pub open spec fn spec_hook_var(doc: JsonData, path: Seq<Seq<char>>) -> Seq<char> {
    match path_value(doc, path) {
        Some(JsonData::Str(s)) => s,
        Some(JsonData::Bool(b)) => if b {
            Seq::empty()
        } else {
            seq!['1']
        },
        Some(v) => json_text(v),
        None => "null"@,
    }
}

/// Draws one variable's value from the payload.
pub fn hook_var_value(doc: &JsonValue, path: &Vec<String>) -> (r: String)
    ensures
        r@ == spec_hook_var(doc@, views_of(path@)),
{
    let ghost target = spec_hook_var(doc@, views_of(path@));
    match doc.get_path(path) {
        Some(v) => match v {
            JsonValue::Str(s) => {
                proof {
                    JsonValue::lemma_model_cases(v);
                    assert(target == s@);
                }
                s.clone()
            },
            JsonValue::Bool(b) => {
                if *b {
                    proof {
                        JsonValue::lemma_model_cases(v);
                        assert(target =~= Seq::<char>::empty());
                    }
                    String::new()
                } else {
                    proof {
                        JsonValue::lemma_model_cases(v);
                        reveal_strlit("1");
                        assert("1"@ =~= seq!['1']);
                        assert(target == seq!['1']);
                    }
                    "1".to_owned()
                }
            },
            other => {
                proof {
                    JsonValue::lemma_model_cases(other);
                    assert(target == json_text(other@));
                }
                other.to_json_string()
            },
        },
        None => {
            proof {
                assert(target == "null"@);
            }
            "null".to_owned()
        },
    }
}

/// The environment one hook gets for a payload: each configured variable
/// in order, valued as its query says. `None` exactly when some query is
/// malformed.
#[verifier::loop_isolation(false)]
pub fn compute_hook_env(hook: &config::Event, payload: &JsonValue) -> (r: Option<
    Vec<(String, String)>,
>)
    ensures
        r is None <==> exists|i: int| 0 <= i < hook@.vars.len() && !((#[trigger] hook@.vars[i]).1
            =~= seq!['.']) && !shaped_query(hook@.vars[i].1),
        r matches Some(env) ==> env@.len() == hook@.vars.len() && forall|i: int| 0 <= i
            < env@.len() ==> (#[trigger] env@[i]).0@ == hook@.vars[i].0 && exists|
            path: Seq<Seq<char>>,
        |
            valid_path(path) && (hook@.vars[i].1 =~= seq!['.'] && path.len() == 0 || query_text_of(
                path,
            ) == hook@.vars[i].1) && env@[i].1@ == spec_hook_var(payload@, path),
{
    let mut env: Vec<(String, String)> = Vec::new();
    let mut i: usize = 0;
    while i < hook.vars.len()
        invariant
            i <= hook.vars.len(),
            env@.len() == i,
            forall|j: int| 0 <= j < i ==> ((#[trigger] hook@.vars[j]).1 =~= seq!['.']
                || shaped_query(hook@.vars[j].1)),
            forall|j: int| 0 <= j < i ==> (#[trigger] env@[j]).0@ == hook@.vars[j].0 && exists|
                path: Seq<Seq<char>>,
            |
                valid_path(path) && (hook@.vars[j].1 =~= seq!['.'] && path.len() == 0
                    || query_text_of(path) == hook@.vars[j].1) && env@[j].1@ == spec_hook_var(
                    payload@,
                    path,
                ),
        decreases hook.vars.len() - i,
    {
        let name = hook.vars[i].0.clone();
        match parse_query(hook.vars[i].1.as_str()) {
            Some(path) => {
                let value = hook_var_value(payload, &path);
                proof {
                    assert(hook@.vars[i as int].1 == hook.vars@[i as int].1@);
                }
                env.push((name, value));
            },
            None => {
                proof {
                    assert(hook@.vars[i as int].1 == hook.vars@[i as int].1@);
                }
                return None;
            },
        }
        i = i + 1;
    }
    Some(env)
}

} // verus!
