//! JSON values as the pool and the proxy handle them.

use vstd::prelude::*;

use crate::text::{decimal, digit, push_decimal, push_signed_decimal, signed_decimal};

verus! {

/// A JSON value.
#[derive(Debug, PartialEq, Eq)]
pub enum Json {
    Null,
    Bool(bool),
    /// An integer that fits in 64 bits with a sign.
    Int(i64),
    /// An integer beyond those that fits in 64 bits without a sign.
    UInt(u64),
    /// Any other number, in its printed form.
    Float(String),
    Str(String),
    Array(Vec<Json>),
    /// Members in order.
    Object(Vec<(String, Json)>),
}

/// A hexadecimal digit.
pub open spec fn hex_digit(d: nat) -> char {
    if d < 10 {
        digit(d)
    } else {
        (87 + d) as char
    }
}

/// A character inside a JSON string literal: quotes, backslashes and control
/// characters are escaped, everything else stands for itself.
pub open spec fn escaped_char(c: char) -> Seq<char> {
    let code = c as u32 as nat;
    if c == '"' {
        seq!['\\', '"']
    } else if c == '\\' {
        seq!['\\', '\\']
    } else if code == 0x8 {
        seq!['\\', 'b']
    } else if code == 0x9 {
        seq!['\\', 't']
    } else if code == 0xa {
        seq!['\\', 'n']
    } else if code == 0xc {
        seq!['\\', 'f']
    } else if code == 0xd {
        seq!['\\', 'r']
    } else if code < 0x20 {
        seq!['\\', 'u', '0', '0', hex_digit(code / 16), hex_digit(code % 16)]
    } else {
        seq![c]
    }
}

/// The characters of `s` inside a JSON string literal.
pub open spec fn escaped(s: Seq<char>) -> Seq<char>
    decreases s.len(),
{
    if s.len() == 0 {
        seq![]
    } else {
        escaped(s.drop_last()) + escaped_char(s.last())
    }
}

/// A string as a JSON string literal.
pub open spec fn json_quoted(s: Seq<char>) -> Seq<char> {
    seq!['"'] + escaped(s) + seq!['"']
}

/// Prints a string as a JSON string literal with `serde_json::to_string`. The
/// contract claims that the literal is the string between quotes, with
/// `serde_json`'s escapes for quotes, backslashes and control characters. The
/// call cannot fail on a string: it writes to memory, and there is no map key
/// to reject.
#[verifier::external_body]
pub(crate) fn json_quote(s: &str) -> (r: String)
    ensures
        r@ == json_quoted(s@),
{
    serde_json::to_string(s).expect("a string always serializes")
}

/// The compact JSON text of a value.
pub open spec fn json_text(value: Json) -> Seq<char>
    decreases value,
{
    match value {
        Json::Null => "null"@,
        Json::Bool(b) => if b {
            "true"@
        } else {
            "false"@
        },
        Json::Int(n) => signed_decimal(n as int),
        Json::UInt(n) => decimal(n as nat),
        Json::Float(text) => text@,
        Json::Str(s) => json_quoted(s@),
        Json::Array(items) => "["@ + items_text(items@) + "]"@,
        Json::Object(members) => "{"@ + members_text(members@) + "}"@,
    }
}

/// The texts of array items, separated by commas.
pub open spec fn items_text(items: Seq<Json>) -> Seq<char>
    decreases items,
{
    if items.len() == 0 {
        seq![]
    } else if items.len() == 1 {
        json_text(items[0])
    } else {
        json_text(items[0]) + ","@ + items_text(items.subrange(1, items.len() as int))
    }
}

/// The texts of object members, separated by commas.
pub open spec fn members_text(members: Seq<(String, Json)>) -> Seq<char>
    decreases members,
{
    if members.len() == 0 {
        seq![]
    } else {
        let first = json_quoted(members[0].0@) + ":"@ + json_text(members[0].1);
        if members.len() == 1 {
            first
        } else {
            first + ","@ + members_text(members.subrange(1, members.len() as int))
        }
    }
}

impl Json {
    /// The compact JSON text of this value.
    pub fn to_text(&self) -> (r: String)
        ensures
            r@ == json_text(*self),
    {
        let mut out = String::new();
        self.push_text(&mut out);
        out
    }

    fn push_text(&self, out: &mut String)
        ensures
            final(out)@ == old(out)@ + json_text(*self),
        decreases self, 0nat,
    {
        match self {
            Json::Null => out.append("null"),
            Json::Bool(b) => if *b {
                out.append("true")
            } else {
                out.append("false")
            },
            Json::Int(n) => push_signed_decimal(out, *n),
            Json::UInt(n) => push_decimal(out, *n),
            Json::Float(text) => out.append(text.as_str()),
            Json::Str(s) => out.append(json_quote(s.as_str()).as_str()),
            Json::Array(items) => {
                let ghost before = out@;
                out.append("[");
                assert(items@.skip(0) =~= items@);
                push_items(items, 0, out);
                out.append("]");
                assert(out@ =~= before + json_text(*self));
            },
            Json::Object(members) => {
                let ghost before = out@;
                out.append("{");
                assert(members@.skip(0) =~= members@);
                push_members(members, 0, out);
                out.append("}");
                assert(out@ =~= before + json_text(*self));
            },
        }
    }
}

fn push_items(items: &Vec<Json>, from: usize, out: &mut String)
    requires
        from <= items@.len(),
    ensures
        final(out)@ == old(out)@ + items_text(items@.skip(from as int)),
    decreases items, items@.len() - from,
{
    let ghost before = out@;
    let ghost rest = items@.skip(from as int);
    if from < items.len() {
        proof {
            broadcast use vstd::std_specs::vec::axiom_vec_index_decreases;

            assert(decreases_to!(items => items[from as int]));
        }
        items[from].push_text(out);
        assert(rest[0] == items@[from as int]);
        if from + 1 < items.len() {
            out.append(",");
            push_items(items, from + 1, out);
            assert(rest.subrange(1, rest.len() as int) =~= items@.skip(from + 1));
            assert(out@ =~= before + items_text(rest));
        }
    } else {
        assert(out@ =~= before + items_text(rest));
    }
}

fn push_members(members: &Vec<(String, Json)>, from: usize, out: &mut String)
    requires
        from <= members@.len(),
    ensures
        final(out)@ == old(out)@ + members_text(members@.skip(from as int)),
    decreases members, members@.len() - from,
{
    let ghost before = out@;
    let ghost rest = members@.skip(from as int);
    if from < members.len() {
        proof {
            broadcast use vstd::std_specs::vec::axiom_vec_index_decreases;

            assert(decreases_to!(members => members[from as int]));
        }
        out.append(json_quote(members[from].0.as_str()).as_str());
        out.append(":");
        members[from].1.push_text(out);
        assert(rest[0] == members@[from as int]);
        if from + 1 < members.len() {
            out.append(",");
            push_members(members, from + 1, out);
            assert(rest.subrange(1, rest.len() as int) =~= members@.skip(from + 1));
        }
        assert(out@ =~= before + members_text(rest));
    } else {
        assert(out@ =~= before + members_text(rest));
    }
}

/// The character that a four-digit escape stands for.
pub open spec fn hex_value(c: char) -> int {
    if '0' <= c <= '9' {
        c as u32 - '0' as u32
    } else {
        c as u32 - 'a' as u32 + 10
    }
}

/// The text that the inside of a JSON string literal stands for, read from the
/// left: a backslash starts an escape, and anything else stands for itself.
pub open spec fn unescaped(s: Seq<char>) -> Seq<char>
    decreases s.len(),
{
    if s.len() == 0 {
        seq![]
    } else if s[0] != '\\' {
        seq![s[0]] + unescaped(s.drop_first())
    } else if s.len() < 2 {
        seq![]
    } else if s[1] == 'u' {
        if s.len() < 6 {
            seq![]
        } else {
            let code = 4096 * hex_value(s[2]) + 256 * hex_value(s[3]) + 16 * hex_value(s[4])
                + hex_value(s[5]);
            seq![code as char] + unescaped(s.skip(6))
        }
    } else {
        let c = if s[1] == 'b' {
            8 as char
        } else if s[1] == 't' {
            9 as char
        } else if s[1] == 'n' {
            10 as char
        } else if s[1] == 'f' {
            12 as char
        } else if s[1] == 'r' {
            13 as char
        } else {
            s[1]
        };
        seq![c] + unescaped(s.skip(2))
    }
}

proof fn lemma_unescape_first(c: char, rest: Seq<char>)
    ensures
        unescaped(escaped_char(c) + rest) == seq![c] + unescaped(rest),
{
    let s = escaped_char(c) + rest;
    let code = c as u32 as nat;
    if c == '"' || c == '\\' || code == 0x8 || code == 0x9 || code == 0xa || code == 0xc || code
        == 0xd {
        assert(s.skip(2) =~= rest);
    } else if code < 0x20 {
        assert(s.skip(6) =~= rest);
        assert(hex_value(hex_digit(code / 16)) == code / 16);
        assert(hex_value(hex_digit(code % 16)) == code % 16);
        assert(hex_value('0') == 0);
    } else {
        assert(s.drop_first() =~= rest);
    }
}

proof fn lemma_unescape_all(s: Seq<char>, rest: Seq<char>)
    ensures
        unescaped(escaped(s) + rest) == s + unescaped(rest),
    decreases s.len(),
{
    if s.len() == 0 {
        assert(escaped(s) + rest =~= rest);
        assert(s + unescaped(rest) =~= unescaped(rest));
    } else {
        let last = escaped_char(s.last());
        lemma_unescape_all(s.drop_last(), last + rest);
        lemma_unescape_first(s.last(), rest);
        assert(escaped(s) + rest =~= escaped(s.drop_last()) + (last + rest));
        assert(s.drop_last() + (seq![s.last()] + unescaped(rest)) =~= s + unescaped(rest));
    }
}

/// A string literal reads back as the string: it stands between two quotes, and
/// what is between them holds no raw control character and means the string.
pub proof fn law_string_literal_reads_back(s: Seq<char>)
    ensures
        json_quoted(s).len() >= 2,
        json_quoted(s)[0] == '"',
        json_quoted(s).last() == '"',
        unescaped(json_quoted(s).subrange(1, json_quoted(s).len() - 1)) == s,
        forall|i: int|
            0 <= i < json_quoted(s).len() ==> (#[trigger] json_quoted(s)[i]) as u32 >= 0x20,
{
    let quoted = json_quoted(s);
    assert(quoted.subrange(1, quoted.len() - 1) =~= escaped(s));
    lemma_unescape_all(s, seq![]);
    assert(escaped(s) + Seq::<char>::empty() =~= escaped(s));
    assert(s + unescaped(seq![]) =~= s);
    lemma_escaped_is_printable(s);
    assert forall|i: int| 0 <= i < quoted.len() implies (#[trigger] quoted[i]) as u32 >= 0x20 by {
        if 0 < i < quoted.len() - 1 {
            assert(quoted[i] == escaped(s)[i - 1]);
        }
    }
}

proof fn lemma_escaped_is_printable(s: Seq<char>)
    ensures
        forall|i: int| 0 <= i < escaped(s).len() ==> (#[trigger] escaped(s)[i]) as u32 >= 0x20,
    decreases s.len(),
{
    if s.len() > 0 {
        lemma_escaped_is_printable(s.drop_last());
        let start = escaped(s.drop_last());
        let last = escaped_char(s.last());
        assert forall|i: int| 0 <= i < escaped(s).len() implies (
        #[trigger] escaped(s)[i]) as u32 >= 0x20 by {
            if i < start.len() {
                assert(escaped(s)[i] == start[i]);
            } else {
                assert(escaped(s)[i] == last[i - start.len()]);
            }
        }
    }
}

/// How each kind of value is written: the three words, numbers in decimal,
/// other numbers as they are given, and texts as string literals.
pub proof fn law_plain_values_are_written_in_full(value: Json)
    ensures
        value is Null ==> json_text(value) == "null"@,
        value matches Json::Bool(b) ==> json_text(value) == if b {
            "true"@
        } else {
            "false"@
        },
        value matches Json::Int(n) ==> json_text(value) == signed_decimal(n as int),
        value matches Json::UInt(n) ==> json_text(value) == decimal(n as nat),
        value matches Json::Float(text) ==> json_text(value) == text@,
        value matches Json::Str(s) ==> json_text(value) == json_quoted(s@),
{
}

/// Items are written in order with a comma between any two: a list written in
/// two parts is the same text, and a list of one is its item.
pub proof fn law_items_are_written_one_after_another(a: Seq<Json>, b: Seq<Json>, item: Json)
    ensures
        items_text(seq![]) == Seq::<char>::empty(),
        items_text(seq![item]) == json_text(item),
        a.len() > 0 && b.len() > 0 ==> items_text(a + b) == items_text(a) + ","@ + items_text(b),
    decreases a.len(),
{
    if a.len() > 0 && b.len() > 0 {
        let whole = a + b;
        if a.len() == 1 {
            assert(whole.subrange(1, whole.len() as int) =~= b);
        } else {
            let rest = a.subrange(1, a.len() as int);
            law_items_are_written_one_after_another(rest, b, item);
            assert(whole.subrange(1, whole.len() as int) =~= rest + b);
            assert(items_text(whole) =~= items_text(a) + ","@ + items_text(b));
        }
    }
}

/// Members are written in order with a comma between any two, each as its name,
/// a colon and its value.
pub proof fn law_members_are_written_one_after_another(
    a: Seq<(String, Json)>,
    b: Seq<(String, Json)>,
    one: (String, Json),
)
    ensures
        members_text(seq![]) == Seq::<char>::empty(),
        members_text(seq![one]) == json_quoted(one.0@) + ":"@ + json_text(one.1),
        a.len() > 0 && b.len() > 0 ==> members_text(a + b) == members_text(a) + ","@
            + members_text(b),
    decreases a.len(),
{
    if a.len() > 0 && b.len() > 0 {
        let whole = a + b;
        if a.len() == 1 {
            assert(whole.subrange(1, whole.len() as int) =~= b);
        } else {
            let rest = a.subrange(1, a.len() as int);
            law_members_are_written_one_after_another(rest, b, one);
            assert(whole.subrange(1, whole.len() as int) =~= rest + b);
            assert(members_text(whole) =~= members_text(a) + ","@ + members_text(b));
        }
    }
}

/// Arrays stand in square brackets and objects in braces, around all of their
/// contents.
pub proof fn law_brackets_stand_around_contents(value: Json)
    ensures
        value matches Json::Array(items) ==> json_text(value) == seq!['['] + items_text(items@)
            + seq![']'],
        value matches Json::Object(members) ==> json_text(value) == seq!['{'] + members_text(
            members@,
        ) + seq!['}'],
{
    reveal_strlit("[");
    reveal_strlit("]");
    reveal_strlit("{");
    reveal_strlit("}");
    assert("["@ =~= seq!['[']);
    assert("]"@ =~= seq![']']);
    assert("{"@ =~= seq!['{']);
    assert("}"@ =~= seq!['}']);
}

/// A character is escaped only where JSON asks for it: quotes, backslashes and
/// control characters. Every other one stands for itself.
pub proof fn law_only_special_characters_are_escaped(c: char)
    ensures
        escaped_char(c) == seq![c] <==> c != '"' && c != '\\' && c as u32 >= 0x20,
{
    if c == '"' || c == '\\' || !(c as u32 >= 0x20) {
        assert(escaped_char(c).len() >= 2);
        assert(seq![c].len() == 1);
    }
}

} // verus!
