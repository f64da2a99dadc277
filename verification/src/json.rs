//! The members of a JSON object, one by one, as they stand in its text.

use vstd::prelude::*;
use vstd::slice::*;
use vstd::utf8::*;

use crate::text;
use crate::types;

verus! {

/// A member of a JSON object.
#[derive(Debug)]
pub struct Member {
    /// Its name.
    pub name: String,
    /// Its value, where that is a string.
    pub text: Option<String>,
    /// Its value, where that is an integer.
    pub number: Option<i64>,
}

/// A `Member`, as specifications see it.
#[verifier::ext_equal]
pub struct Named {
    pub name: Seq<char>,
    pub text: Option<Seq<char>>,
    pub number: Option<i64>,
}

impl View for Member {
    type V = Named;

    open spec fn view(&self) -> Named {
        Named { name: self.name@, text: types::opt_text(self.text), number: self.number }
    }
}

/// The byte of `"`.
pub const QUOTE: u8 = 34;

/// The byte of `,`.
pub const COMMA: u8 = 44;

/// The byte of `-`.
pub const MINUS: u8 = 45;

/// The byte of `:`.
pub const COLON: u8 = 58;

/// The byte of `{`.
pub const OPEN: u8 = 123;

/// The byte of `}`.
pub const CLOSE: u8 = 125;

/// Members, as specifications see them.
pub open spec fn named(ms: Seq<Member>) -> Seq<Named> {
    Seq::new(ms.len(), |i: int| ms[i]@)
}

// ---------------------------------------------------------------------------
// Values
// ---------------------------------------------------------------------------

/// How many bytes the JSON value takes that some bytes begin with, with the blanks before
/// it, where they begin with one.
pub uninterp spec fn json_end_of(b: Seq<u8>) -> Option<nat>;

/// The text of the JSON string that some bytes begin with, where they begin with one.
pub uninterp spec fn json_string_of(b: Seq<u8>) -> Option<Seq<char>>;

/// The integer that some bytes begin with in JSON, where they begin with one.
pub uninterp spec fn json_integer_of(b: Seq<u8>) -> Option<i64>;

/// The first item of a `serde_json::StreamDeserializer` for values of any kind, and how
/// many bytes it took. It depends on the bytes alone. A value is at least one byte long.
#[verifier::external_body]
fn json_end(b: &[u8]) -> (r: Option<usize>)
    ensures
        match r {
            Some(n) => json_end_of(b@) == Some(n as nat) && 0 < n <= b@.len(),
            None => json_end_of(b@) is None,
        },
{
    let mut values = serde_json::Deserializer::from_slice(b).into_iter::<serde::de::IgnoredAny>();
    match values.next() {
        Some(Ok(_)) => Some(values.byte_offset()),
        _ => None,
    }
}

/// The first item of a `serde_json::StreamDeserializer` for strings. It depends on the
/// bytes alone.
#[verifier::external_body]
fn json_string(b: &[u8]) -> (r: Option<String>)
    ensures
        types::opt_text(r) == json_string_of(b@),
{
    serde_json::Deserializer::from_slice(b).into_iter::<String>().next().and_then(|s| s.ok())
}

/// The first item of a `serde_json::StreamDeserializer` for `i64`. It depends on the
/// bytes alone.
#[verifier::external_body]
fn json_integer(b: &[u8]) -> (r: Option<i64>)
    ensures
        r == json_integer_of(b@),
{
    serde_json::Deserializer::from_slice(b).into_iter::<i64>().next().and_then(|i| i.ok())
}

/// How a character is written in a JSON string: quotes, backslashes and control characters
/// are escaped.
pub open spec fn escaped_char(c: char) -> Seq<char> {
    if c == '"' || c == '\\' {
        seq!['\\', c]
    } else if c as int == 8 {
        seq!['\\', 'b']
    } else if c as int == 9 {
        seq!['\\', 't']
    } else if c as int == 10 {
        seq!['\\', 'n']
    } else if c as int == 12 {
        seq!['\\', 'f']
    } else if c as int == 13 {
        seq!['\\', 'r']
    } else if (c as int) < 32 {
        seq!['\\', 'u', '0', '0', text::digit(c as int / 16), text::digit(c as int % 16)]
    } else {
        seq![c]
    }
}

/// How a text is written in a JSON string.
pub open spec fn escaped(s: Seq<char>) -> Seq<char>
    decreases s.len(),
{
    if s.len() == 0 {
        s
    } else {
        escaped(s.drop_last()) + escaped_char(s.last())
    }
}

/// A JSON string.
pub open spec fn string_bytes(s: Seq<char>) -> Seq<u8> {
    seq![QUOTE] + encode_utf8(escaped(s)) + seq![QUOTE]
}

/// The bytes of a decimal numeral.
pub open spec fn digit_bytes(n: nat) -> Seq<u8> {
    Seq::new(text::decimal(n).len(), |i: int| text::decimal(n)[i] as u8)
}

/// A JSON integer.
pub open spec fn integer_bytes(i: i64) -> Seq<u8> {
    if i < 0 {
        seq![MINUS] + digit_bytes((-i) as nat)
    } else {
        digit_bytes(i as nat)
    }
}

/// Whether the JSON string of a text stands at a place.
pub open spec fn string_at(b: Seq<u8>, at: int, s: Seq<char>) -> bool {
    &&& 0 <= at
    &&& at + string_bytes(s).len() <= b.len()
    &&& b.subrange(at, at + string_bytes(s).len()) == string_bytes(s)
}

/// Whether the JSON integer stands at a place, as the value of a member.
pub open spec fn integer_at(b: Seq<u8>, at: int, i: i64) -> bool {
    &&& 0 <= at
    &&& at + integer_bytes(i).len() < b.len()
    &&& b.subrange(at, at + integer_bytes(i).len()) == integer_bytes(i)
    &&& b[at + integer_bytes(i).len()] == COMMA || b[at + integer_bytes(i).len()] == CLOSE
}

/// Whether the strings and integers that were written are read back where they stand.
pub open spec fn reads_back(b: Seq<u8>) -> bool {
    &&& forall|at: int, s: Seq<char>| #[trigger]
        string_at(b, at, s) ==> json_string_of(b.skip(at)) == Some(s) && json_end_of(b.skip(at))
            == Some(string_bytes(s).len())
    &&& forall|at: int, i: i64| #[trigger]
        integer_at(b, at, i) ==> json_integer_of(b.skip(at)) == Some(i) && json_end_of(b.skip(at))
            == Some(integer_bytes(i).len())
}

// ---------------------------------------------------------------------------
// Objects
// ---------------------------------------------------------------------------

/// Whether a byte may stand between the parts of a JSON text.
pub open spec fn blank(c: u8) -> bool {
    c == 32 || c == 9 || c == 10 || c == 13
}

/// What is left behind the blanks at the beginning.
pub open spec fn after_blanks(b: Seq<u8>) -> Seq<u8>
    decreases b.len(),
{
    if b.len() > 0 && blank(b[0]) {
        after_blanks(b.skip(1))
    } else {
        b
    }
}

/// How many bytes the value takes that some bytes begin with.
pub open spec fn value_end(b: Seq<u8>) -> Option<int> {
    match json_end_of(b) {
        Some(n) => if 0 < n <= b.len() {
            Some(n as int)
        } else {
            None
        },
        None => None,
    }
}

/// The value of a member called `name`, and what is left behind it.
pub open spec fn member_value(name: Seq<char>, v: Seq<u8>) -> Option<(Named, Seq<u8>)> {
    match value_end(v) {
        Some(n) => Some(
            (
                Named { name, text: json_string_of(v), number: json_integer_of(v) },
                after_blanks(v.skip(n)),
            ),
        ),
        None => None,
    }
}

/// The member that some bytes begin with, and what is left behind it: a string, a colon
/// and a value.
pub open spec fn first_member(b: Seq<u8>) -> Option<(Named, Seq<u8>)> {
    match (json_string_of(b), value_end(b)) {
        (Some(name), Some(n)) => {
            let c = after_blanks(b.skip(n));
            if c.len() > 0 && c[0] == COLON {
                member_value(name, after_blanks(c.skip(1)))
            } else {
                None
            }
        },
        _ => None,
    }
}

/// The members up to the end of the object, of which there is at least one.
pub open spec fn members_from(b: Seq<u8>) -> Option<Seq<Named>>
    decreases b.len(),
{
    match first_member(b) {
        None => None,
        Some((m, rest)) => {
            proof {
                lemma_first_member_shortens(b);
            }
            if rest.len() == 0 {
                None
            } else if rest[0] == COMMA {
                proof {
                    lemma_after_blanks_len(rest.skip(1));
                }
                match members_from(after_blanks(rest.skip(1))) {
                    Some(ms) => Some(seq![m] + ms),
                    None => None,
                }
            } else if rest[0] == CLOSE && after_blanks(rest.skip(1)).len() == 0 {
                Some(seq![m])
            } else {
                None
            }
        },
    }
}

/// The members of a JSON object, in their order and with those that are repeated. Nothing
/// but blanks may stand around the object.
pub open spec fn members(b: Seq<u8>) -> Option<Seq<Named>> {
    let o = after_blanks(b);
    if o.len() == 0 || o[0] != OPEN {
        None
    } else {
        let c = after_blanks(o.skip(1));
        if c.len() > 0 && c[0] == CLOSE {
            if after_blanks(c.skip(1)).len() == 0 {
                Some(Seq::empty())
            } else {
                None
            }
        } else {
            members_from(c)
        }
    }
}

/// Skipping blanks makes nothing longer.
pub proof fn lemma_after_blanks_len(b: Seq<u8>)
    ensures
        after_blanks(b).len() <= b.len(),
    decreases b.len(),
{
    if b.len() > 0 && blank(b[0]) {
        lemma_after_blanks_len(b.skip(1));
    }
}

/// There is less left behind a member.
pub proof fn lemma_first_member_shortens(b: Seq<u8>)
    ensures
        first_member(b) matches Some((m, rest)) ==> rest.len() < b.len(),
{
    if first_member(b) is Some {
        let n = value_end(b)->0;
        let c = after_blanks(b.skip(n));
        let v = after_blanks(c.skip(1));
        lemma_after_blanks_len(b.skip(n));
        lemma_after_blanks_len(c.skip(1));
        lemma_after_blanks_len(v.skip(value_end(v)->0));
    }
}

/// The place behind the blanks at a place.
fn past_blanks(b: &[u8], from: usize) -> (r: usize)
    requires
        from <= b@.len(),
    ensures
        from <= r <= b@.len(),
        b@.skip(r as int) == after_blanks(b@.skip(from as int)),
{
    let mut at: usize = from;
    while at < b.len() && (b[at] == 32 || b[at] == 9 || b[at] == 10 || b[at] == 13)
        invariant
            from <= at <= b@.len(),
            after_blanks(b@.skip(at as int)) == after_blanks(b@.skip(from as int)),
        decreases b@.len() - at,
    {
        assert(b@.skip(at as int).skip(1) =~= b@.skip(at + 1));
        assert(b@.skip(at as int)[0] == b@[at as int]);
        at += 1;
    }
    assert(at < b@.len() ==> b@.skip(at as int)[0] == b@[at as int]);
    at
}

/// The member at a place, and the place behind it.
fn member_at(b: &[u8], at: usize) -> (r: Option<(Member, usize)>)
    requires
        at <= b@.len(),
    ensures
        match r {
            Some((m, n)) => at <= n <= b@.len() && first_member(b@.skip(at as int)) == Some(
                (m@, b@.skip(n as int)),
            ),
            None => first_member(b@.skip(at as int)) is None,
        },
{
    let head = slice_subrange(b, at, b.len());
    assert(head@ =~= b@.skip(at as int));
    let name = match json_string(head) {
        Some(s) => s,
        None => return None,
    };
    let n: usize = match json_end(head) {
        Some(n) => n,
        None => return None,
    };
    assert(b@.skip(at as int).skip(n as int) =~= b@.skip(at + n));
    let colon = past_blanks(b, at + n);
    if colon == b.len() || b[colon] != COLON {
        return None;
    }
    assert(b@.skip(colon as int).skip(1) =~= b@.skip(colon + 1));
    let from = past_blanks(b, colon + 1);
    let value = slice_subrange(b, from, b.len());
    assert(value@ =~= b@.skip(from as int));
    let m: usize = match json_end(value) {
        Some(m) => m,
        None => return None,
    };
    assert(b@.skip(from as int).skip(m as int) =~= b@.skip(from + m));
    let member = Member { name, text: json_string(value), number: json_integer(value) };
    Some((member, past_blanks(b, from + m)))
}

/// The members of a JSON object, in their order and with those that are repeated.
pub fn members_of(b: &[u8]) -> (r: Option<Vec<Member>>)
    ensures
        match r {
            Some(ms) => members(b@) == Some(named(ms@)),
            None => members(b@) is None,
        },
{
    let mut out: Vec<Member> = Vec::new();
    assert(b@.skip(0) =~= b@);
    let open = past_blanks(b, 0);
    if open == b.len() || b[open] != OPEN {
        return None;
    }
    assert(b@.skip(open as int).skip(1) =~= b@.skip(open + 1));
    let mut at = past_blanks(b, open + 1);
    if at < b.len() && b[at] == CLOSE {
        assert(b@.skip(at as int).skip(1) =~= b@.skip(at + 1));
        assert(named(out@) =~= Seq::empty());
        let end = past_blanks(b, at + 1);
        return if end == b.len() {
            Some(out)
        } else {
            None
        };
    }
    assert(named(out@) =~= Seq::empty());
    assert(members_from(b@.skip(at as int)) matches Some(ms) ==> Seq::<Named>::empty() + ms =~= ms);
    loop
        invariant
            at <= b@.len(),
            members(b@) == match members_from(b@.skip(at as int)) {
                Some(ms) => Some(named(out@) + ms),
                None => None,
            },
        decreases b@.len() - at,
    {
        proof {
            lemma_first_member_shortens(b@.skip(at as int));
        }
        let ghost before = out@;
        let (m, end) = match member_at(b, at) {
            Some(f) => f,
            None => return None,
        };
        let ghost last = m@;
        if end == b.len() {
            return None;
        }
        assert(b@.skip(end as int)[0] == b@[end as int]);
        assert(b@.skip(end as int).skip(1) =~= b@.skip(end + 1));
        out.push(m);
        assert(named(out@) =~= named(before).push(last));
        let next = past_blanks(b, end + 1);
        if b[end] == COMMA {
            assert(members_from(b@.skip(next as int)) matches Some(ms) ==> named(before) + (
            seq![last] + ms) =~= named(out@) + ms);
            at = next;
        } else if b[end] == CLOSE && next == b.len() {
            assert(named(before) + seq![last] =~= named(out@));
            return Some(out);
        } else {
            return None;
        }
    }
}

/// A member with a value, as it is written.
pub open spec fn member_bytes(name: Seq<char>, value: Seq<u8>) -> Seq<u8> {
    string_bytes(name) + (seq![COLON] + value)
}

/// A string that is read back where it stands.
proof fn lemma_string_reads(b: Seq<u8>, at: int, s: Seq<char>, rest: Seq<u8>)
    requires
        reads_back(b),
        0 <= at <= b.len(),
        b.skip(at) == string_bytes(s) + rest,
    ensures
        json_string_of(b.skip(at)) == Some(s),
        value_end(b.skip(at)) == Some(string_bytes(s).len() as int),
        at + string_bytes(s).len() + rest.len() == b.len(),
        b.skip(at + string_bytes(s).len()) == rest,
        after_blanks(b.skip(at)) == b.skip(at),
{
    let n = string_bytes(s).len() as int;
    assert(b.skip(at).len() == n + rest.len());
    assert forall|k: int| 0 <= k < n implies b.subrange(at, at + n)[k] == string_bytes(s)[k] by {
        assert(b.skip(at)[k] == b[at + k]);
    }
    assert(b.subrange(at, at + n) =~= string_bytes(s));
    assert(string_at(b, at, s));
    assert(b.skip(at + n) =~= b.skip(at).skip(n));
    assert(b.skip(at).skip(n) =~= rest);
    assert(b.skip(at)[0] == QUOTE);
}

/// An integer that is read back where it stands.
proof fn lemma_integer_reads(b: Seq<u8>, at: int, i: i64, rest: Seq<u8>)
    requires
        reads_back(b),
        0 <= at <= b.len(),
        b.skip(at) == integer_bytes(i) + rest,
        rest.len() > 0,
        rest[0] == COMMA || rest[0] == CLOSE,
    ensures
        json_integer_of(b.skip(at)) == Some(i),
        value_end(b.skip(at)) == Some(integer_bytes(i).len() as int),
        b.skip(at + integer_bytes(i).len()) == rest,
        after_blanks(b.skip(at)) == b.skip(at),
{
    let n = integer_bytes(i).len() as int;
    text::lemma_decimal_digits(
        if i < 0 {
            (-i) as nat
        } else {
            i as nat
        },
    );
    assert(b.skip(at).len() == n + rest.len());
    assert forall|k: int| 0 <= k < n implies b.subrange(at, at + n)[k] == integer_bytes(i)[k] by {
        assert(b.skip(at)[k] == b[at + k]);
    }
    assert(b.subrange(at, at + n) =~= integer_bytes(i));
    assert(b.skip(at)[n] == b[at + n]);
    assert(integer_at(b, at, i));
    assert(b.skip(at + n) =~= b.skip(at).skip(n));
    assert(b.skip(at).skip(n) =~= rest);
    assert(b.skip(at)[0] == integer_bytes(i)[0]);
}

/// The name of a member that was written is read, and its value is what comes next.
proof fn lemma_name_reads(b: Seq<u8>, at: int, name: Seq<char>, value: Seq<u8>, rest: Seq<u8>)
    requires
        reads_back(b),
        0 <= at <= b.len(),
        b.skip(at) == member_bytes(name, value) + rest,
        after_blanks(value + rest) == value + rest,
    ensures
        first_member(b.skip(at)) == member_value(name, value + rest),
        b.skip(at + string_bytes(name).len() + 1) == value + rest,
        at + string_bytes(name).len() + 1 <= b.len(),
{
    let tail = seq![COLON] + value + rest;
    let n = string_bytes(name).len() as int;
    assert(b.skip(at) =~= string_bytes(name) + tail);
    lemma_string_reads(b, at, name, tail);
    assert(b.skip(at).skip(n) =~= b.skip(at + n));
    assert(tail[0] == COLON);
    assert(tail.skip(1) =~= value + rest);
    assert(b.skip(at + n + 1) =~= b.skip(at + n).skip(1));
}

/// A member with a string that was written is read back.
pub proof fn lemma_text_member_reads(b: Seq<u8>, at: int, name: Seq<char>, s: Seq<char>, rest: Seq<u8>)
    requires
        reads_back(b),
        0 <= at <= b.len(),
        b.skip(at) == member_bytes(name, string_bytes(s)) + rest,
        after_blanks(rest) == rest,
    ensures
        first_member(b.skip(at)) matches Some((m, r)) && m.name == name && m.text == Some(s) && r
            == rest,
{
    let v = string_bytes(s) + rest;
    assert(v[0] == QUOTE);
    lemma_name_reads(b, at, name, string_bytes(s), rest);
    let from = at + string_bytes(name).len() + 1;
    lemma_string_reads(b, from, s, rest);
    assert(v.skip(string_bytes(s).len() as int) =~= rest);
}

/// A member with an integer that was written is read back.
pub proof fn lemma_number_member_reads(b: Seq<u8>, at: int, name: Seq<char>, i: i64, rest: Seq<u8>)
    requires
        reads_back(b),
        0 <= at <= b.len(),
        b.skip(at) == member_bytes(name, integer_bytes(i)) + rest,
        rest.len() > 0,
        rest[0] == COMMA || rest[0] == CLOSE,
    ensures
        first_member(b.skip(at)) matches Some((m, r)) && m.name == name && m.number == Some(i) && r
            == rest,
{
    let v = integer_bytes(i) + rest;
    let n: nat = if i < 0 {
        (-i) as nat
    } else {
        i as nat
    };
    text::lemma_decimal_digits(n);
    assert('0' <= text::decimal(n)[0] <= '9');
    assert(v[0] == integer_bytes(i)[0]);
    lemma_name_reads(b, at, name, integer_bytes(i), rest);
    let from = at + string_bytes(name).len() + 1;
    lemma_integer_reads(b, from, i, rest);
    assert(v.skip(integer_bytes(i).len() as int) =~= rest);
}

/// A member before other members.
pub proof fn lemma_member_before(t: Seq<u8>, m: Named, u: Seq<u8>, ms: Seq<Named>)
    requires
        first_member(t) == Some((m, seq![COMMA] + u)),
        after_blanks(u) == u,
        members_from(u) == Some(ms),
    ensures
        members_from(t) == Some(seq![m] + ms),
{
    let rest = seq![COMMA] + u;
    assert(rest[0] == COMMA);
    assert(rest.skip(1) =~= u);
}

/// The last member.
pub proof fn lemma_member_last(t: Seq<u8>, m: Named)
    requires
        first_member(t) == Some((m, seq![CLOSE])),
    ensures
        members_from(t) == Some(seq![m]),
{
    let rest = seq![CLOSE];
    assert(rest[0] == CLOSE);
    assert(rest.skip(1).len() == 0);
}

/// An object with members.
pub proof fn lemma_object(t: Seq<u8>, ms: Seq<Named>)
    requires
        members_from(t) == Some(ms),
        t.len() > 0,
        t[0] == QUOTE,
    ensures
        members(seq![OPEN] + t) == Some(ms),
{
    let b = seq![OPEN] + t;
    assert(b[0] == OPEN);
    assert(b.skip(1) =~= t);
}

/// White space before an object does not matter.
pub proof fn law_blanks_before_an_object(c: u8, b: Seq<u8>)
    requires
        c == 0x20 || c == 0x09 || c == 0x0a || c == 0x0d,
    ensures
        members(seq![c] + b) == members(b),
{
    assert((seq![c] + b)[0] == c);
    assert((seq![c] + b).skip(1) =~= b);
}

/// What is no object has no members: it has to begin with a brace, and nothing but white space
/// may stand behind its end.
pub proof fn law_objects_stand_alone(b: Seq<u8>)
    ensures
        b.len() == 0 ==> members(b) is None,
        b.len() > 0 && !blank(b[0]) && b[0] != 0x7b ==> members(b) is None,
        members(seq![0x7bu8, 0x7d]) == Some(Seq::<Named>::empty()),
        b.len() > 0 && !blank(b[0]) ==> members(seq![0x7bu8, 0x7d] + b) is None,
{
    let e = seq![0x7bu8, 0x7d];
    assert(e.skip(1)[0] == 0x7d);
    assert(e.skip(1).skip(1).len() == 0);
    let x = e + b;
    assert(x[0] == 0x7b);
    assert(x.skip(1)[0] == 0x7d);
    assert(x.skip(1).skip(1) =~= b);
}

} // verus!
