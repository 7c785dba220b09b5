//! Small text tools: decimal numbers, comparison, trimming.

use vstd::prelude::*;

verus! {

/// The decimal digit `d` as a character.
pub open spec fn digit(d: nat) -> char {
    (48 + d) as char
}

/// `n` in decimal, without leading zeros.
pub open spec fn decimal(n: nat) -> Seq<char>
    decreases n,
{
    if n < 10 {
        seq![digit(n)]
    } else {
        decimal(n / 10).push(digit(n % 10))
    }
}

/// `n` in decimal, with a minus sign when it is negative.
pub open spec fn signed_decimal(n: int) -> Seq<char> {
    if n < 0 {
        seq!['-'] + decimal((-n) as nat)
    } else {
        decimal(n as nat)
    }
}

fn digit_str(d: u64) -> (r: &'static str)
    requires
        d < 10,
    ensures
        r@ == seq![digit(d as nat)],
{
    proof {
        reveal_strlit("0");
        reveal_strlit("1");
        reveal_strlit("2");
        reveal_strlit("3");
        reveal_strlit("4");
        reveal_strlit("5");
        reveal_strlit("6");
        reveal_strlit("7");
        reveal_strlit("8");
        reveal_strlit("9");
    }
    if d == 0 {
        "0"
    } else if d == 1 {
        "1"
    } else if d == 2 {
        "2"
    } else if d == 3 {
        "3"
    } else if d == 4 {
        "4"
    } else if d == 5 {
        "5"
    } else if d == 6 {
        "6"
    } else if d == 7 {
        "7"
    } else if d == 8 {
        "8"
    } else {
        "9"
    }
}

/// Append `n` in decimal to `out`.
pub fn push_decimal(out: &mut String, n: u64)
    ensures
        final(out)@ == old(out)@ + decimal(n as nat),
    decreases n,
{
    if n >= 10 {
        push_decimal(out, n / 10);
    }
    out.append(digit_str(n % 10));
}

/// Append `n` in decimal to `out`, with its sign when negative.
pub fn push_signed_decimal(out: &mut String, n: i64)
    ensures
        final(out)@ == old(out)@ + signed_decimal(n as int),
{
    if n < 0 {
        proof {
            reveal_strlit("-");
        }
        out.append("-");
        let magnitude: u64 = (-(n + 1)) as u64 + 1;
        push_decimal(out, magnitude);
    } else {
        push_decimal(out, n as u64);
    }
}

/// Whether two strings hold the same characters.
pub fn str_eq(a: &str, b: &str) -> (r: bool)
    ensures
        r == (a@ == b@),
{
    a.to_owned() == b.to_owned()
}

/// The characters of `s`.
pub fn chars_of(s: &str) -> (r: Vec<char>)
    ensures
        r@ == s@,
{
    let mut r: Vec<char> = Vec::new();
    for c in it: s.chars()
        invariant
            r@ == it.seq().take(it.index() as int),
    {
        r.push(c);
    }
    r
}

/// `a` comes before `b` because they first differ at position `k`.
pub open spec fn precedes_at(a: Seq<char>, b: Seq<char>, k: int) -> bool {
    &&& 0 <= k <= a.len()
    &&& k < b.len()
    &&& forall|i: int| 0 <= i < k ==> a[i] == b[i]
    &&& k == a.len() || a[k] < b[k]
}

/// Dictionary order by character code, which is also the byte order of the
/// UTF-8 encodings.
pub open spec fn precedes(a: Seq<char>, b: Seq<char>) -> bool {
    exists|k: int| precedes_at(a, b, k)
}

/// No text comes before itself, and no two texts come before each other.
pub proof fn lemma_precedes_asymmetric(a: Seq<char>, b: Seq<char>)
    requires
        precedes(a, b),
    ensures
        a != b,
        !precedes(b, a),
{
    let k = choose|k: int| precedes_at(a, b, k);
    if a == b {
        assert(a[k] == b[k]);
    }
    assert forall|j: int| !precedes_at(b, a, j) by {
        if precedes_at(b, a, j) {
            if j < k {
                assert(a[j] == b[j]);
            } else if k < j {
                assert(b[k] == a[k]);
            }
        }
    }
}

/// Dictionary order is transitive.
pub proof fn lemma_precedes_transitive(a: Seq<char>, b: Seq<char>, c: Seq<char>)
    requires
        precedes(a, b),
        precedes(b, c),
    ensures
        precedes(a, c),
{
    let k = choose|k: int| precedes_at(a, b, k);
    let j = choose|j: int| precedes_at(b, c, j);
    let m = if k < j {
        k
    } else {
        j
    };
    assert forall|i: int| 0 <= i < m implies a[i] == c[i] by {
        assert(a[i] == b[i]);
        assert(b[i] == c[i]);
    }
    if k < j {
        assert(b[k] == c[k]);
    } else if j < k {
        assert(a[j] == b[j]);
    }
    assert(precedes_at(a, c, m));
}

/// Whether `a` comes before `b` in dictionary order. When it does not, the two
/// are equal or `b` comes first.
pub fn str_precedes(a: &str, b: &str) -> (r: bool)
    ensures
        r == precedes(a@, b@),
        !r ==> a@ == b@ || precedes(b@, a@),
{
    let left = chars_of(a);
    let right = chars_of(b);
    let mut k: usize = 0;
    while k < left.len() && k < right.len() && left[k] == right[k]
        invariant
            k <= left@.len(),
            k <= right@.len(),
            forall|i: int| 0 <= i < k ==> left@[i] == right@[i],
        decreases left.len() - k,
    {
        k += 1;
    }
    if k < right.len() && (k == left.len() || left[k] < right[k]) {
        assert(precedes_at(a@, b@, k as int));
        true
    } else {
        proof {
            if k < left@.len() {
                assert(precedes_at(b@, a@, k as int));
                lemma_precedes_asymmetric(b@, a@);
            } else {
                assert(a@ =~= b@);
                if precedes(a@, b@) {
                    lemma_precedes_asymmetric(a@, b@);
                }
            }
        }
        false
    }
}

/// The characters with the Unicode `White_Space` property.
pub open spec fn is_white_space(c: char) -> bool {
    let u = c as u32;
    ||| 0x9 <= u <= 0xd
    ||| u == 0x20
    ||| u == 0x85
    ||| u == 0xa0
    ||| u == 0x1680
    ||| 0x2000 <= u <= 0x200a
    ||| u == 0x2028
    ||| u == 0x2029
    ||| u == 0x202f
    ||| u == 0x205f
    ||| u == 0x3000
}

/// Whether `c` is white space.
pub fn white_space(c: char) -> (r: bool)
    ensures
        r == is_white_space(c),
{
    let u: u32 = c as u32;
    (0x9 <= u && u <= 0xd) || u == 0x20 || u == 0x85 || u == 0xa0 || u == 0x1680 || (0x2000 <= u
        && u <= 0x200a) || u == 0x2028 || u == 0x2029 || u == 0x202f || u == 0x205f || u == 0x3000
}

/// Nothing but white space.
pub open spec fn is_blank(s: Seq<char>) -> bool {
    forall|i: int| 0 <= i < s.len() ==> is_white_space(#[trigger] s[i])
}

/// Whether `s` holds nothing but white space.
pub fn blank(s: &str) -> (r: bool)
    ensures
        r == is_blank(s@),
{
    let chars = chars_of(s);
    let mut i: usize = 0;
    while i < chars.len()
        invariant
            i <= chars@.len(),
            chars@ == s@,
            forall|j: int| 0 <= j < i ==> is_white_space(#[trigger] s@[j]),
        decreases chars.len() - i,
    {
        if !white_space(chars[i]) {
            assert(!is_white_space(s@[i as int]));
            return false;
        }
        i += 1;
    }
    true
}

/// `s` from its first character that is not white space.
pub open spec fn trimmed_start(s: Seq<char>) -> Seq<char>
    decreases s.len(),
{
    if s.len() > 0 && is_white_space(s[0]) {
        trimmed_start(s.drop_first())
    } else {
        s
    }
}

/// `s` up to its last character that is not white space.
pub open spec fn trimmed_end(s: Seq<char>) -> Seq<char>
    decreases s.len(),
{
    if s.len() > 0 && is_white_space(s.last()) {
        trimmed_end(s.drop_last())
    } else {
        s
    }
}

/// `s` without the white space at either end.
pub open spec fn trimmed(s: Seq<char>) -> Seq<char> {
    trimmed_end(trimmed_start(s))
}

/// The lower-case form of an ASCII letter; any other character unchanged.
pub open spec fn ascii_lower(c: char) -> char {
    if 'A' <= c <= 'Z' {
        (c as u32 + 32) as char
    } else {
        c
    }
}

/// Every ASCII letter in lower case.
pub open spec fn ascii_lowered(s: Seq<char>) -> Seq<char> {
    s.map_values(|c: char| ascii_lower(c))
}

/// The lower-case form of an ASCII letter; any other character unchanged.
fn lower(c: char) -> (r: char)
    ensures
        r == ascii_lower(c),
{
    if 'A' <= c && c <= 'Z' {
        ((c as u8) + 32) as char
    } else {
        c
    }
}

/// The characters of `s`, trimmed and in ASCII lower case.
pub fn trimmed_lower(s: &str) -> (r: Vec<char>)
    ensures
        r@ == ascii_lowered(trimmed(s@)),
{
    let chars = chars_of(s);
    let mut from: usize = 0;
    assert(s@.skip(0) =~= s@);
    while from < chars.len() && white_space(chars[from])
        invariant
            from <= chars@.len(),
            chars@ == s@,
            trimmed_start(s@) == trimmed_start(s@.skip(from as int)),
        decreases chars.len() - from,
    {
        assert(s@.skip(from as int).drop_first() =~= s@.skip(from + 1));
        from += 1;
    }
    let mut to: usize = chars.len();
    assert(s@.skip(from as int) =~= s@.subrange(from as int, to as int));
    while from < to && white_space(chars[to - 1])
        invariant
            from <= to <= chars@.len(),
            chars@ == s@,
            trimmed(s@) == trimmed_end(s@.subrange(from as int, to as int)),
        decreases to - from,
    {
        assert(s@.subrange(from as int, to as int).drop_last() =~= s@.subrange(
            from as int,
            to - 1,
        ));
        to -= 1;
    }
    let ghost kept = s@.subrange(from as int, to as int);
    let mut r: Vec<char> = Vec::new();
    let mut i: usize = from;
    while i < to
        invariant
            from <= i <= to <= chars@.len(),
            chars@ == s@,
            kept == s@.subrange(from as int, to as int),
            r@ == ascii_lowered(kept.take(i - from)),
        decreases to - i,
    {
        r.push(lower(chars[i]));
        assert(ascii_lowered(kept.take(i + 1 - from)) =~= ascii_lowered(kept.take(i - from)).push(
            ascii_lower(kept[i - from]),
        ));
        i += 1;
    }
    assert(kept.take(to - from) =~= kept);
    r
}

/// Whether `chars` spells `word`.
pub fn spells(chars: &Vec<char>, word: &str) -> (r: bool)
    ensures
        r == (chars@ == word@),
{
    let other = chars_of(word);
    if chars.len() != other.len() {
        return false;
    }
    let mut i: usize = 0;
    while i < chars.len()
        invariant
            i <= chars@.len() == other@.len(),
            other@ == word@,
            forall|j: int| 0 <= j < i ==> chars@[j] == other@[j],
        decreases chars.len() - i,
    {
        if chars[i] != other[i] {
            return false;
        }
        i += 1;
    }
    assert(chars@ =~= other@);
    true
}

/// The number that a row of decimal digits stands for.
pub open spec fn digits_value(s: Seq<char>) -> int
    decreases s.len(),
{
    if s.len() == 0 {
        0
    } else {
        10 * digits_value(s.drop_last()) + (s.last() as u32 - '0' as u32)
    }
}

/// A number in decimal reads back as itself, has digits only, and does not
/// start with a zero unless it is zero.
pub proof fn law_decimal_reads_back(n: nat)
    ensures
        digits_value(decimal(n)) == n,
        decimal(n).len() > 0,
        forall|i: int| 0 <= i < decimal(n).len() ==> '0' <= #[trigger] decimal(n)[i] <= '9',
        n > 0 ==> decimal(n)[0] != '0',
    decreases n,
{
    reveal_with_fuel(digits_value, 2);
    if n < 10 {
        assert(decimal(n).drop_last() =~= seq![]);
    } else {
        law_decimal_reads_back(n / 10);
        assert(decimal(n).drop_last() =~= decimal(n / 10));
        assert forall|i: int| 0 <= i < decimal(n).len() implies '0' <= #[trigger] decimal(n)[i]
            <= '9' by {
            if i < decimal(n / 10).len() {
                assert(decimal(n)[i] == decimal(n / 10)[i]);
            }
        }
        assert(decimal(n)[0] == decimal(n / 10)[0]);
    }
}

/// A negative number is the sign and then its size; any other has no sign.
pub proof fn law_signed_decimal_reads_back(n: int)
    ensures
        n >= 0 ==> digits_value(signed_decimal(n)) == n && signed_decimal(n)[0] != '-',
        n < 0 ==> signed_decimal(n)[0] == '-' && digits_value(signed_decimal(n).drop_first())
            == -n,
{
    if n < 0 {
        law_decimal_reads_back((-n) as nat);
        assert(signed_decimal(n).drop_first() =~= decimal((-n) as nat));
    } else {
        law_decimal_reads_back(n as nat);
    }
}

/// Dictionary order: nothing comes before a longer text it starts, the first
/// character that differs decides, and what two texts share at their start does
/// not matter.
pub proof fn law_dictionary_order(shared: Seq<char>, a: Seq<char>, b: Seq<char>)
    ensures
        !precedes(a, seq![]),
        a.len() > 0 ==> precedes(seq![], a),
        a.len() > 0 && b.len() > 0 && a[0] < b[0] ==> precedes(a, b),
        a.len() > 0 && b.len() > 0 && a[0] > b[0] ==> !precedes(a, b),
        precedes(shared + a, shared + b) <==> precedes(a, b),
{
    if a.len() > 0 {
        assert(precedes_at(seq![], a, 0));
    }
    if a.len() > 0 && b.len() > 0 && a[0] < b[0] {
        assert(precedes_at(a, b, 0));
    }
    if a.len() > 0 && b.len() > 0 && a[0] > b[0] {
        assert(precedes_at(b, a, 0));
        lemma_precedes_asymmetric(b, a);
    }
    let n = shared.len() as int;
    if precedes(a, b) {
        let k = choose|k: int| precedes_at(a, b, k);
        assert forall|i: int| 0 <= i < n + k implies (shared + a)[i] == (shared + b)[i] by {
            if i >= n {
                assert(a[i - n] == b[i - n]);
            }
        }
        if k < a.len() {
            assert((shared + a)[n + k] == a[k] && (shared + b)[n + k] == b[k]);
        }
        assert(precedes_at(shared + a, shared + b, n + k));
    }
    if precedes(shared + a, shared + b) {
        let k = choose|k: int| precedes_at(shared + a, shared + b, k);
        if k < n {
            assert((shared + a)[k] == shared[k] && (shared + b)[k] == shared[k]);
        }
        assert forall|i: int| 0 <= i < k - n implies a[i] == b[i] by {
            assert((shared + a)[n + i] == (shared + b)[n + i]);
        }
        if k - n < a.len() {
            assert((shared + a)[k] == a[k - n] && (shared + b)[k] == b[k - n]);
        }
        assert(precedes_at(a, b, k - n));
    }
}

/// Trimming takes white space off both ends and nothing else: what is left
/// starts and ends with something else, or is nothing.
pub proof fn law_trimming_takes_white_space_only(s: Seq<char>)
    ensures
        exists|before: Seq<char>, after: Seq<char>|
            {
                &&& #[trigger] (before + trimmed(s) + after) == s
                &&& is_blank(before)
                &&& is_blank(after)
            },
        trimmed(s).len() > 0 ==> !is_white_space(trimmed(s)[0]) && !is_white_space(
            trimmed(s).last(),
        ),
{
    let mid = trimmed_start(s);
    let before = lemma_trimmed_start(s);
    let after = lemma_trimmed_end(mid);
    let kept = trimmed(s);
    assert(before + kept + after =~= before + (kept + after));
    if kept.len() > 0 {
        assert(mid[0] == kept[0]);
    }
}

proof fn lemma_trimmed_start(s: Seq<char>) -> (before: Seq<char>)
    ensures
        before + trimmed_start(s) == s,
        is_blank(before),
        trimmed_start(s).len() > 0 ==> !is_white_space(trimmed_start(s)[0]),
    decreases s.len(),
{
    if trimmed_start(s) == s {
        if s.len() > 0 && is_white_space(s[0]) {
            lemma_trimmed_start(s.drop_first());
        }
        assert(Seq::<char>::empty() + s =~= s);
        Seq::empty()
    } else {
        let rest = lemma_trimmed_start(s.drop_first());
        let before = seq![s[0]] + rest;
        assert(before + trimmed_start(s) =~= seq![s[0]] + (rest + trimmed_start(s.drop_first())));
        assert(seq![s[0]] + s.drop_first() =~= s);
        assert forall|i: int| 0 <= i < before.len() implies is_white_space(
            #[trigger] before[i],
        ) by {
            if i > 0 {
                assert(before[i] == rest[i - 1]);
            }
        }
        before
    }
}

proof fn lemma_trimmed_end(s: Seq<char>) -> (after: Seq<char>)
    ensures
        trimmed_end(s) + after == s,
        is_blank(after),
        trimmed_end(s).len() > 0 ==> !is_white_space(trimmed_end(s).last()),
    decreases s.len(),
{
    if s.len() == 0 || !is_white_space(s.last()) {
        assert(trimmed_end(s) + Seq::<char>::empty() =~= s);
        Seq::empty()
    } else {
        let rest = lemma_trimmed_end(s.drop_last());
        let after = rest.push(s.last());
        assert(trimmed_end(s) + after =~= (trimmed_end(s.drop_last()) + rest).push(s.last()));
        assert(s.drop_last().push(s.last()) =~= s);
        after
    }
}

/// Lower case changes nothing but the 26 capital letters, each to its own small
/// letter, 32 places on.
pub proof fn law_lower_case_moves_capitals_alone(s: Seq<char>, i: int)
    requires
        0 <= i < s.len(),
    ensures
        ascii_lowered(s).len() == s.len(),
        65 <= s[i] as u32 <= 90 ==> ascii_lowered(s)[i] as u32 == s[i] as u32 + 32,
        !(65 <= s[i] as u32 <= 90) ==> ascii_lowered(s)[i] == s[i],
{
}

/// The 25 characters that Unicode counts as white space, and no other.
pub proof fn law_white_space_is_unicodes(c: char)
    ensures
        is_white_space(c) <==> (set![
            0x9u32, 0xau32, 0xbu32, 0xcu32, 0xdu32, 0x20u32, 0x85u32, 0xa0u32, 0x1680u32,
            0x2000u32, 0x2001u32, 0x2002u32, 0x2003u32, 0x2004u32, 0x2005u32, 0x2006u32,
            0x2007u32, 0x2008u32, 0x2009u32, 0x200au32, 0x2028u32, 0x2029u32, 0x202fu32,
            0x205fu32, 0x3000u32,
        ]).contains(c as u32),
{
}

/// A text is blank when trimming leaves nothing of it, and one character that is
/// no white space keeps it from being blank.
pub proof fn law_blank_text_trims_to_nothing(s: Seq<char>, i: int)
    ensures
        is_blank(s) <==> trimmed(s).len() == 0,
        0 <= i < s.len() && !is_white_space(s[i]) ==> !is_blank(s),
        s.len() == 0 ==> is_blank(s),
{
    let mid = trimmed_start(s);
    let before = lemma_trimmed_start(s);
    let after = lemma_trimmed_end(mid);
    let kept = trimmed(s);
    if kept.len() > 0 {
        assert(mid[0] == kept[0]);
        assert(s[before.len() as int] == mid[0]);
    } else {
        assert(mid =~= after);
        assert forall|k: int| 0 <= k < s.len() implies is_white_space(#[trigger] s[k]) by {
            if k < before.len() {
                assert(s[k] == before[k]);
            } else {
                assert(s[k] == after[k - before.len()]);
            }
        }
    }
}

} // verus!
