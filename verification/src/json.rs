//! A JSON-like document tree of plain values.
//!
//! Telemetry responses are arbitrary structured documents. The engine keeps
//! them in this tree: numbers are kept as their decimal text, so the tree
//! carries exactly what the wire carried, and object members keep their
//! order of appearance.

use vstd::prelude::*;
use vstd::std_specs::iter::IteratorSpec;

verus! {

broadcast use
    vstd::std_specs::vec::group_vec_axioms,
    vstd::string::next_postcondition,
    vstd::string::axiom_spec_iter,
;

/// Mathematical model of a document: what contracts speak of.
pub enum JsonData {
    Null,
    Bool(bool),
    /// The number's decimal text, as it stood on the wire.
    Num(Seq<char>),
    Str(Seq<char>),
    Arr(Seq<JsonData>),
    Obj(Seq<(Seq<char>, JsonData)>),
}

/// A JSON document held as plain values.
#[derive(Debug, PartialEq)]
pub enum JsonValue {
    Null,
    Bool(bool),
    /// The number's decimal text, as it stood on the wire.
    Num(String),
    Str(String),
    Arr(Vec<JsonValue>),
    Obj(Vec<(String, JsonValue)>),
}

impl View for JsonValue {
    type V = JsonData;

    open spec fn view(&self) -> JsonData {
        JsonValue::model_of(*self)
    }
}

impl JsonValue {
    /// The model of a document, member by member.
    pub closed spec fn model_of(v: JsonValue) -> JsonData
        decreases v,
    {
        match v {
            JsonValue::Null => JsonData::Null,
            JsonValue::Bool(b) => JsonData::Bool(b),
            JsonValue::Num(s) => JsonData::Num(s@),
            JsonValue::Str(s) => JsonData::Str(s@),
            JsonValue::Arr(items) => JsonData::Arr(Self::models_of(items@)),
            JsonValue::Obj(members) => JsonData::Obj(Self::member_models_of(members@)),
        }
    }

    pub closed spec fn models_of(s: Seq<JsonValue>) -> Seq<JsonData>
        decreases s,
    {
        if s.len() == 0 {
            Seq::empty()
        } else {
            Self::models_of(s.drop_last()).push(Self::model_of(s.last()))
        }
    }

    pub closed spec fn member_models_of(s: Seq<(String, JsonValue)>) -> Seq<(Seq<char>, JsonData)>
        decreases s,
    {
        if s.len() == 0 {
            Seq::empty()
        } else {
            Self::member_models_of(s.drop_last()).push(
                (s.last().0@, Self::model_of(s.last().1)),
            )
        }
    }

    /// The element models line up with the elements, one for one.
    pub proof fn lemma_models_of(s: Seq<JsonValue>)
        ensures
            Self::models_of(s).len() == s.len(),
            forall|i: int| 0 <= i < s.len() ==> Self::models_of(s)[i] == Self::model_of(#[trigger] s[i]),
        decreases s,
    {
        if s.len() > 0 {
            Self::lemma_models_of(s.drop_last());
            assert forall|i: int| 0 <= i < s.len() implies Self::models_of(s)[i]
                == Self::model_of(#[trigger] s[i]) by {
                if i < s.len() - 1 {
                    assert(s.drop_last()[i] == s[i]);
                } else {
                    assert(s[i] == s.last());
                }
            }
        }
    }

    /// What an object built from a list of members models, looked at
    /// from outside.
    pub proof fn lemma_obj_model(members: &Vec<(String, JsonValue)>)
        ensures
            (JsonValue::Obj(*members))@ is Obj,
            (JsonValue::Obj(*members))@->Obj_0.len() == members@.len(),
            forall|i: int| 0 <= i < members@.len() ==> (JsonValue::Obj(*members))@->Obj_0[i] == ((
            #[trigger] members@[i]).0@, members@[i].1@),
    {
        Self::lemma_member_models_of(members@);
    }

    /// What the model of each variant is, looked at from outside.
    pub proof fn lemma_model_cases(v: &JsonValue)
        ensures
            v matches JsonValue::Null ==> v@ == JsonData::Null,
            v matches JsonValue::Bool(b) ==> v@ == JsonData::Bool(*b),
            v matches JsonValue::Num(s) ==> v@ == JsonData::Num(s@),
            v matches JsonValue::Str(s) ==> v@ == JsonData::Str(s@),
            v matches JsonValue::Arr(items) ==> v@ is Arr,
            v matches JsonValue::Obj(members) ==> v@ is Obj,
            v@ is Null <==> v is Null,
            v@ is Bool <==> v is Bool,
            v@ is Num <==> v is Num,
            v@ is Str <==> v is Str,
            v@ is Arr <==> v is Arr,
            v@ is Obj <==> v is Obj,
    {
    }

    /// The member models line up with the members, one for one.
    pub proof fn lemma_member_models_of(s: Seq<(String, JsonValue)>)
        ensures
            Self::member_models_of(s).len() == s.len(),
            forall|i: int| 0 <= i < s.len() ==> Self::member_models_of(s)[i]
                == ((#[trigger] s[i]).0@, Self::model_of(s[i].1)),
        decreases s,
    {
        if s.len() > 0 {
            Self::lemma_member_models_of(s.drop_last());
            assert forall|i: int| 0 <= i < s.len() implies Self::member_models_of(s)[i]
                == ((#[trigger] s[i]).0@, Self::model_of(s[i].1)) by {
                if i < s.len() - 1 {
                    assert(s.drop_last()[i] == s[i]);
                } else {
                    assert(s[i] == s.last());
                }
            }
        }
    }
}

/// The first member of an object with the given key, if any.
pub open spec fn obj_lookup(members: Seq<(Seq<char>, JsonData)>, key: Seq<char>) -> Option<JsonData>
    decreases members.len(),
{
    if members.len() == 0 {
        None
    } else if members[0].0 == key {
        Some(members[0].1)
    } else {
        obj_lookup(members.skip(1), key)
    }
}

/// The value a field path leads to: each step descends into the member
/// named by the next segment, and fails on anything but an object.
pub open spec fn path_value(doc: JsonData, path: Seq<Seq<char>>) -> Option<JsonData>
    decreases path.len(),
{
    if path.len() == 0 {
        Some(doc)
    } else {
        match doc {
            JsonData::Obj(members) => match obj_lookup(members, path[0]) {
                Some(v) => path_value(v, path.skip(1)),
                None => None,
            },
            _ => None,
        }
    }
}

/// The views of a sequence of strings.
pub open spec fn views_of(s: Seq<String>) -> Seq<Seq<char>> {
    s.map_values(|x: String| x@)
}

impl JsonValue {
    /// True when the document is an object at top level.
    pub fn is_object(&self) -> (r: bool)
        ensures
            r == self@ is Obj,
    {
        match self {
            JsonValue::Obj(_) => true,
            _ => false,
        }
    }

    /// The string inside, when the document is a string.
    pub fn as_str(&self) -> (r: Option<&String>)
        ensures
            match r {
                Some(s) => self@ == JsonData::Str(s@),
                None => !(self@ is Str),
            },
    {
        match self {
            JsonValue::Str(s) => Some(s),
            _ => None,
        }
    }

    /// The first member with the given key, when the document is an object
    /// that has one.
    #[verifier::loop_isolation(false)]
    pub fn get<'a>(&'a self, key: &String) -> (r: Option<&'a JsonValue>)
        ensures
            match r {
                Some(v) => self@ is Obj && obj_lookup(self@->Obj_0, key@) == Some(v@),
                None => !(self@ is Obj) || obj_lookup(self@->Obj_0, key@) is None,
            },
    {
        match self {
            JsonValue::Obj(members) => {
                proof {
                    Self::lemma_member_models_of(members@);
                }
                let ghost all = Self::member_models_of(members@);
                proof {
                    assert(all.skip(0) =~= all);
                }
                let mut i: usize = 0;
                while i < members.len()
                    invariant
                        i <= members.len(),
                        all == Self::member_models_of(members@),
                        all.len() == members@.len(),
                        forall|j: int| 0 <= j < members@.len() ==> all[j]
                            == ((#[trigger] members@[j]).0@, Self::model_of(members@[j].1)),
                        obj_lookup(all, key@) == obj_lookup(all.skip(i as int), key@),
                    decreases members.len() - i,
                {
                    proof {
                        assert(all.skip(i as int)[0] == all[i as int]);
                        assert(all[i as int] == (members@[i as int].0@,
                            Self::model_of(members@[i as int].1)));
                    }
                    if members[i].0 == *key {
                        proof {
                            assert(all.skip(i as int)[0].0 == key@);
                            assert(obj_lookup(all.skip(i as int), key@)
                                == Some(all.skip(i as int)[0].1));
                        }
                        return Some(&members[i].1);
                    }
                    proof {
                        assert(all.skip(i as int).skip(1) =~= all.skip(i + 1));
                    }
                    i = i + 1;
                }
                proof {
                    assert(all.skip(i as int).len() == 0);
                }
                None
            },
            _ => None,
        }
    }

    /// The value a field path leads to in this document, if any.
    #[verifier::loop_isolation(false)]
    pub fn get_path<'a>(&'a self, path: &Vec<String>) -> (r: Option<&'a JsonValue>)
        ensures
            match r {
                Some(v) => path_value(self@, views_of(path@)) == Some(v@),
                None => path_value(self@, views_of(path@)) is None,
            },
    {
        let mut cur: &JsonValue = self;
        proof {
            assert(views_of(path@).skip(0) =~= views_of(path@));
        }
        let mut i: usize = 0;
        while i < path.len()
            invariant
                i <= path.len(),
                path_value(self@, views_of(path@)) == path_value(cur@, views_of(path@).skip(i as int)),
            decreases path.len() - i,
        {
            let ghost rest = views_of(path@).skip(i as int);
            proof {
                assert(views_of(path@)[i as int] == path@[i as int]@);
                assert(rest[0] == views_of(path@)[i as int]);
            }
            match cur.get(&path[i]) {
                Some(v) => {
                    proof {
                        assert(rest.skip(1) =~= views_of(path@).skip(i + 1));
                    }
                    cur = v;
                },
                None => {
                    return None;
                },
            }
            i = i + 1;
        }
        proof {
            assert(views_of(path@).skip(i as int) =~= Seq::<Seq<char>>::empty());
        }
        Some(cur)
    }
}

impl Clone for JsonValue {
    /// A clone carries the same model.
    #[verifier::loop_isolation(false)]
    fn clone(&self) -> (res: Self)
        ensures
            res@ == self@,
        decreases self,
    {
        match self {
            JsonValue::Null => JsonValue::Null,
            JsonValue::Bool(b) => JsonValue::Bool(*b),
            JsonValue::Num(s) => JsonValue::Num(s.clone()),
            JsonValue::Str(s) => JsonValue::Str(s.clone()),
            JsonValue::Arr(items) => {
                let mut out: Vec<JsonValue> = Vec::new();
                let mut i: usize = 0;
                while i < items.len()
                    invariant
                        i <= items.len(),
                        out@.len() == i,
                        forall|j: int| 0 <= j < i ==> Self::model_of(#[trigger] out@[j])
                            == Self::model_of(items@[j]),
                    decreases items.len() - i,
                {
                    out.push(items[i].clone());
                    i = i + 1;
                }
                proof {
                    Self::lemma_models_of(out@);
                    Self::lemma_models_of(items@);
                    assert forall|j: int| 0 <= j < out@.len() implies Self::models_of(out@)[j]
                        == Self::models_of(items@)[j] by {
                        assert(Self::model_of(out@[j]) == Self::model_of(items@[j]));
                    }
                    assert(Self::models_of(out@) =~= Self::models_of(items@));
                }
                JsonValue::Arr(out)
            },
            JsonValue::Obj(members) => {
                let mut out: Vec<(String, JsonValue)> = Vec::new();
                let mut i: usize = 0;
                while i < members.len()
                    invariant
                        i <= members.len(),
                        out@.len() == i,
                        forall|j: int| 0 <= j < i ==> (#[trigger] out@[j]).0@ == members@[j].0@
                            && Self::model_of(out@[j].1) == Self::model_of(members@[j].1),
                    decreases members.len() - i,
                {
                    proof {
                        assert(decreases_to!(members@[i as int] => members@[i as int].1));
                    }
                    let m = &members[i];
                    out.push((m.0.clone(), m.1.clone()));
                    i = i + 1;
                }
                proof {
                    Self::lemma_member_models_of(out@);
                    Self::lemma_member_models_of(members@);
                    assert forall|j: int| 0 <= j < out@.len() implies
                        Self::member_models_of(out@)[j] == Self::member_models_of(members@)[j] by {
                        assert(out@[j].0@ == members@[j].0@);
                        assert(Self::model_of(out@[j].1) == Self::model_of(members@[j].1));
                    }
                    assert(Self::member_models_of(out@) =~= Self::member_models_of(members@));
                }
                JsonValue::Obj(out)
            },
        }
    }
}

/// The characters of a string, in order.
pub fn chars_of(s: &str) -> (r: Vec<char>)
    ensures
        r@ == s@,
{
    let mut it = s.chars();
    let mut out: Vec<char> = Vec::new();
    proof {
        assert(out@ + it.remaining() =~= s@);
    }
    loop
        invariant_except_break
            out@ + it.remaining() == s@,
        ensures
            out@ == s@,
        decreases s@.len() - out@.len(),
    {
        match it.next() {
            Some(c) => {
                out.push(c);
                proof {
                    assert(out@ + it.remaining() =~= s@);
                }
            },
            None => {
                proof {
                    assert(out@ =~= s@);
                }
                break;
            },
        }
    }
    out
}

/// Relies on `String`'s `FromIterator<char>`: collecting characters makes
/// the string of exactly those characters, in order.
#[verifier::external_body]
pub(crate) fn string_from_chars(v: &Vec<char>) -> (r: String)
    ensures
        r@ == v@,
{
    v.iter().collect()
}

/// The hexadecimal digit of a value below sixteen.
pub open spec fn spec_hex_digit(n: int) -> char {
    if n == 0 { '0' } else if n == 1 { '1' } else if n == 2 { '2' } else if n == 3 { '3' }
    else if n == 4 { '4' } else if n == 5 { '5' } else if n == 6 { '6' } else if n == 7 { '7' }
    else if n == 8 { '8' } else if n == 9 { '9' } else if n == 10 { 'a' } else if n == 11 { 'b' }
    else if n == 12 { 'c' } else if n == 13 { 'd' } else if n == 14 { 'e' } else { 'f' }
}

/// How one character is written inside a JSON string: quote and backslash
/// get escaped, control characters become a four-digit escape, everything
/// else stands as it is.
pub open spec fn spec_escaped_char(c: char) -> Seq<char> {
    if c == '"' {
        seq!['\\', '"']
    } else if c == '\\' {
        seq!['\\', '\\']
    } else if (c as u32) < 32 {
        seq!['\\', 'u', '0', '0', spec_hex_digit((c as u32) as int / 16), spec_hex_digit(
            (c as u32) as int % 16,
        )]
    } else {
        seq![c]
    }
}

/// How a whole string body is written inside its quotes.
pub open spec fn spec_escaped(s: Seq<char>) -> Seq<char>
    decreases s.len(),
{
    if s.len() == 0 {
        Seq::empty()
    } else {
        spec_escaped(s.drop_last()) + spec_escaped_char(s.last())
    }
}

/// The JSON text of a document: members in order, no added whitespace,
/// numbers as the text they were kept as.
pub open spec fn json_text(v: JsonData) -> Seq<char>
    decreases v,
{
    match v {
        JsonData::Null => "null"@,
        JsonData::Bool(b) => if b {
            "true"@
        } else {
            "false"@
        },
        JsonData::Num(s) => s,
        JsonData::Str(s) => seq!['"'] + spec_escaped(s) + seq!['"'],
        JsonData::Arr(items) => seq!['['] + json_items_text(items) + seq![']'],
        JsonData::Obj(members) => seq!['{'] + json_members_text(members) + seq!['}'],
    }
}

/// The comma-separated texts of an array's elements.
pub open spec fn json_items_text(items: Seq<JsonData>) -> Seq<char>
    decreases items,
{
    if items.len() == 0 {
        Seq::empty()
    } else if items.len() == 1 {
        json_text(items.last())
    } else {
        json_items_text(items.drop_last()) + seq![','] + json_text(items.last())
    }
}

/// The comma-separated texts of an object's members, each a quoted key,
/// a colon, and the value.
pub open spec fn json_members_text(members: Seq<(Seq<char>, JsonData)>) -> Seq<char>
    decreases members,
{
    if members.len() == 0 {
        Seq::empty()
    } else if members.len() == 1 {
        json_member_text(members.last())
    } else {
        json_members_text(members.drop_last()) + seq![','] + json_member_text(members.last())
    }
}

/// The text of one object member.
pub open spec fn json_member_text(m: (Seq<char>, JsonData)) -> Seq<char>
    decreases m,
{
    seq!['"'] + spec_escaped(m.0) + seq!['"', ':'] + json_text(m.1)
}

/// Writes one character as it stands inside a JSON string.
fn write_escaped_char(c: char, out: &mut Vec<char>)
    ensures
        final(out)@ == old(out)@ + spec_escaped_char(c),
{
    if c == '"' {
        out.push('\\');
        out.push('"');
    } else if c == '\\' {
        out.push('\\');
        out.push('\\');
    } else if (c as u32) < 32 {
        out.push('\\');
        out.push('u');
        out.push('0');
        out.push('0');
        let n = c as u32;
        out.push(hex_digit(n / 16));
        out.push(hex_digit(n % 16));
    } else {
        out.push(c);
    }
    proof {
        assert(final(out)@ =~= old(out)@ + spec_escaped_char(c));
    }
}

/// The hexadecimal digit of a value below sixteen.
fn hex_digit(n: u32) -> (r: char)
    requires
        n < 16,
    ensures
        r == spec_hex_digit(n as int),
{
    if n == 0 { '0' } else if n == 1 { '1' } else if n == 2 { '2' } else if n == 3 { '3' }
    else if n == 4 { '4' } else if n == 5 { '5' } else if n == 6 { '6' } else if n == 7 { '7' }
    else if n == 8 { '8' } else if n == 9 { '9' } else if n == 10 { 'a' } else if n == 11 { 'b' }
    else if n == 12 { 'c' } else if n == 13 { 'd' } else if n == 14 { 'e' } else { 'f' }
}

/// Writes a string body, escaped, without its quotes.
#[verifier::loop_isolation(false)]
pub(crate) fn write_escaped(s: &String, out: &mut Vec<char>)
    ensures
        final(out)@ == old(out)@ + spec_escaped(s@),
{
    let cs = chars_of(s.as_str());
    let mut i: usize = 0;
    proof {
        assert(s@.take(0) =~= Seq::<char>::empty());
        assert(out@ + spec_escaped(s@.take(0)) =~= out@);
    }
    while i < cs.len()
        invariant
            i <= cs.len(),
            out@ == old(out)@ + spec_escaped(s@.take(i as int)),
        decreases cs.len() - i,
    {
        proof {
            assert(s@.take(i + 1).drop_last() =~= s@.take(i as int));
            assert(s@.take(i + 1).last() == cs@[i as int]);
        }
        write_escaped_char(cs[i], out);
        i = i + 1;
    }
    proof {
        assert(s@.take(s@.len() as int) =~= s@);
    }
}

/// Appends the characters of a string as they are.
#[verifier::loop_isolation(false)]
pub(crate) fn write_raw(s: &String, out: &mut Vec<char>)
    ensures
        final(out)@ == old(out)@ + s@,
{
    let cs = chars_of(s.as_str());
    let mut i: usize = 0;
    while i < cs.len()
        invariant
            i <= cs.len(),
            out@ == old(out)@ + s@.take(i as int),
        decreases cs.len() - i,
    {
        out.push(cs[i]);
        proof {
            assert(old(out)@ + s@.take(i + 1) =~= out@);
        }
        i = i + 1;
    }
    proof {
        assert(s@.take(s@.len() as int) =~= s@);
    }
}

/// Appends the characters of a literal piece as they are.
#[verifier::loop_isolation(false)]
pub(crate) fn write_str(s: &str, out: &mut Vec<char>)
    ensures
        final(out)@ == old(out)@ + s@,
{
    let cs = chars_of(s);
    let mut i: usize = 0;
    while i < cs.len()
        invariant
            i <= cs.len(),
            out@ == old(out)@ + s@.take(i as int),
        decreases cs.len() - i,
    {
        out.push(cs[i]);
        proof {
            assert(old(out)@ + s@.take(i + 1) =~= out@);
        }
        i = i + 1;
    }
    proof {
        assert(s@.take(s@.len() as int) =~= s@);
    }
}

impl JsonValue {
    /// Writes the document's JSON text after what is already there.
    #[verifier::loop_isolation(false)]
    fn write_json(&self, out: &mut Vec<char>)
        ensures
            final(out)@ == old(out)@ + json_text(self@),
        decreases self,
    {
        match self {
            JsonValue::Null => {
                write_str("null", out);
            },
            JsonValue::Bool(b) => {
                if *b {
                    write_str("true", out);
                } else {
                    write_str("false", out);
                }
            },
            JsonValue::Num(s) => {
                write_raw(s, out);
            },
            JsonValue::Str(s) => {
                out.push('"');
                write_escaped(s, out);
                out.push('"');
                proof {
                    assert(final(out)@ =~= old(out)@ + json_text(self@));
                }
            },
            JsonValue::Arr(items) => {
                out.push('[');
                let ghost head = out@;
                let mut i: usize = 0;
                proof {
                    Self::lemma_models_of(items@);
                }
                while i < items.len()
                    invariant
                        i <= items.len(),
                        out@ == head + json_items_text(Self::models_of(items@).take(i as int)),
                    decreases items.len() - i,
                {
                    let ghost ms = Self::models_of(items@);
                    proof {
                        assert(ms.take(i + 1).drop_last() =~= ms.take(i as int));
                        assert(ms.take(i + 1).last() == ms[i as int]);
                        assert(ms[i as int] == Self::model_of(items@[i as int]));
                    }
                    if i > 0 {
                        out.push(',');
                    }
                    items[i].write_json(out);
                    proof {
                        if i == 0 {
                            assert(out@ =~= head + json_items_text(ms.take(i + 1)));
                        } else {
                            assert(out@ =~= head + json_items_text(ms.take(i + 1)));
                        }
                    }
                    i = i + 1;
                }
                out.push(']');
                proof {
                    assert(Self::models_of(items@).take(items@.len() as int) =~= Self::models_of(
                        items@,
                    ));
                    assert(final(out)@ =~= old(out)@ + json_text(self@));
                }
            },
            JsonValue::Obj(members) => {
                out.push('{');
                let ghost head = out@;
                let mut i: usize = 0;
                proof {
                    Self::lemma_member_models_of(members@);
                }
                while i < members.len()
                    invariant
                        i <= members.len(),
                        out@ == head + json_members_text(
                            Self::member_models_of(members@).take(i as int),
                        ),
                    decreases members.len() - i,
                {
                    let ghost ms = Self::member_models_of(members@);
                    proof {
                        assert(ms.take(i + 1).drop_last() =~= ms.take(i as int));
                        assert(ms.take(i + 1).last() == ms[i as int]);
                        assert(ms[i as int] == (members@[i as int].0@, Self::model_of(
                            members@[i as int].1,
                        )));
                    }
                    if i > 0 {
                        out.push(',');
                    }
                    out.push('"');
                    write_escaped(&members[i].0, out);
                    out.push('"');
                    out.push(':');
                    members[i].1.write_json(out);
                    proof {
                        if i == 0 {
                            assert(json_members_text(ms.take(i + 1)) == json_member_text(
                                ms[i as int],
                            ));
                        } else {
                            assert(json_members_text(ms.take(i + 1)) == json_members_text(
                                ms.take(i as int),
                            ) + seq![','] + json_member_text(ms[i as int]));
                        }
                        assert(json_member_text(ms[i as int]) == seq!['"'] + spec_escaped(
                            members@[i as int].0@,
                        ) + seq!['"', ':'] + json_text(Self::model_of(members@[i as int].1)));
                        assert(out@ =~= head + json_members_text(ms.take(i + 1)));
                    }
                    i = i + 1;
                }
                out.push('}');
                proof {
                    assert(Self::member_models_of(members@).take(members@.len() as int)
                        =~= Self::member_models_of(members@));
                    assert(final(out)@ =~= old(out)@ + json_text(self@));
                }
            },
        }
    }

    /// The document's JSON text: members in order, no added whitespace,
    /// numbers exactly as they were kept.
    pub fn to_json_string(&self) -> (r: String)
        ensures
            r@ == json_text(self@),
    {
        let mut out: Vec<char> = Vec::new();
        self.write_json(&mut out);
        proof {
            assert(Seq::<char>::empty() + json_text(self@) =~= json_text(self@));
        }
        string_from_chars(&out)
    }
}

} // verus!
