use vstd::prelude::*;

verus! {

// Decimal digits and numbers rendered as character sequences. These are the
// building blocks for the query strings and for the cache file format.

pub open spec fn spec_digit_char(d: nat) -> char {
    if d == 0 {
        '0'
    } else if d == 1 {
        '1'
    } else if d == 2 {
        '2'
    } else if d == 3 {
        '3'
    } else if d == 4 {
        '4'
    } else if d == 5 {
        '5'
    } else if d == 6 {
        '6'
    } else if d == 7 {
        '7'
    } else if d == 8 {
        '8'
    } else {
        '9'
    }
}

/// The decimal digit string of `n`, most significant digit first.
pub open spec fn spec_nat_digits(n: nat) -> Seq<char>
    decreases n,
{
    if n < 10 {
        seq![spec_digit_char(n)]
    } else {
        spec_nat_digits(n / 10).push(spec_digit_char(n % 10))
    }
}

pub open spec fn is_digit_char(c: char) -> bool {
    '0' <= c && c <= '9'
}

pub open spec fn digit_char_val(c: char) -> nat {
    ((c as u32) - ('0' as u32)) as nat
}

/// The value of a string of decimal digits, most significant digit first.
pub open spec fn spec_digits_val(s: Seq<char>) -> nat
    decreases s.len(),
{
    if s.len() == 0 {
        0
    } else {
        spec_digits_val(s.drop_last()) * 10 + digit_char_val(s.last())
    }
}

pub proof fn lemma_nat_digits_are_digits(n: nat)
    ensures
        spec_nat_digits(n).len() >= 1,
        forall|i: int|
            0 <= i < spec_nat_digits(n).len() ==> is_digit_char(#[trigger] spec_nat_digits(n)[i]),
    decreases n,
{
    if n >= 10 {
        lemma_nat_digits_are_digits(n / 10);
    }
}

/// Reading back the digit string of a number yields the number.
pub proof fn lemma_digits_val_of_nat_digits(n: nat)
    ensures
        spec_digits_val(spec_nat_digits(n)) == n,
    decreases n,
{
    if n < 10 {
        let s = spec_nat_digits(n);
        assert(s =~= seq![spec_digit_char(n)]);
        assert(s.drop_last() =~= Seq::<char>::empty());
        assert(s.last() == spec_digit_char(n));
        assert(spec_digits_val(s.drop_last()) == 0);
        assert(digit_char_val(spec_digit_char(n)) == n);
    } else {
        lemma_digits_val_of_nat_digits(n / 10);
        let s = spec_nat_digits(n);
        assert(s == spec_nat_digits(n / 10).push(spec_digit_char(n % 10)));
        assert(s.drop_last() =~= spec_nat_digits(n / 10));
        assert(s.last() == spec_digit_char(n % 10));
        assert(digit_char_val(spec_digit_char(n % 10)) == n % 10);
        assert(spec_digits_val(s) == (n / 10) * 10 + n % 10);
    }
}

pub open spec fn pow10(k: nat) -> nat
    decreases k,
{
    if k == 0 {
        1
    } else {
        10 * pow10((k - 1) as nat)
    }
}

/// A number below `10^k` has at most `k` digits.
pub proof fn lemma_nat_digits_len_bound(n: nat, k: nat)
    requires
        n < pow10(k),
        k >= 1,
    ensures
        spec_nat_digits(n).len() <= k,
    decreases n,
{
    if n >= 10 {
        assert(pow10(k) == 10 * pow10((k - 1) as nat));
        lemma_nat_digits_len_bound(n / 10, (k - 1) as nat);
    }
}

/// A single decimal digit as a string slice.
pub fn digit_str(d: u64) -> (r: &'static str)
    requires
        d < 10,
    ensures
        r@ =~= seq![spec_digit_char(d as nat)],
{
    proof {
        reveal_strlit("0");
        reveal_strlit("1");
        reveal_strlit("2");
        reveal_strlit("3");
        reveal_strlit("4");
        reveal_strlit("5");
        reveal_strlit("6");
        reveal_strlit("7");
        reveal_strlit("8");
        reveal_strlit("9");
    }
    if d == 0 {
        "0"
    } else if d == 1 {
        "1"
    } else if d == 2 {
        "2"
    } else if d == 3 {
        "3"
    } else if d == 4 {
        "4"
    } else if d == 5 {
        "5"
    } else if d == 6 {
        "6"
    } else if d == 7 {
        "7"
    } else if d == 8 {
        "8"
    } else {
        "9"
    }
}

/// The decimal string of an unsigned number.
pub fn u64_to_string(n: u64) -> (r: String)
    ensures
        r@ == spec_nat_digits(n as nat),
    decreases n,
{
    if n < 10 {
        digit_str(n).to_owned()
    } else {
        let mut s = u64_to_string(n / 10);
        s.append(digit_str(n % 10));
        proof {
            assert(s@ =~= spec_nat_digits(n as nat));
        }
        s
    }
}

pub fn u32_to_string(n: u32) -> (r: String)
    ensures
        r@ == spec_nat_digits(n as nat),
{
    u64_to_string(n as u64)
}

/// The decimal string of a signed number, a minus sign first where needed.
pub open spec fn spec_i64_chars(n: int) -> Seq<char> {
    if n < 0 {
        "-"@ + spec_nat_digits((0 - n) as nat)
    } else {
        spec_nat_digits(n as nat)
    }
}

pub fn i64_to_string(n: i64) -> (r: String)
    ensures
        r@ == spec_i64_chars(n as int),
{
    if n < 0 {
        let mag: u64 = ((-(n + 1)) as u64) + 1;
        proof {
            assert(mag == (0 - n as int) as nat);
        }
        let mut s = "-".to_owned();
        s.append(u64_to_string(mag).as_str());
        s
    } else {
        u64_to_string(n as u64)
    }
}

/// The characters with the Unicode `White_Space` property, as `str::trim`
/// strips them.
pub open spec fn is_whitespace_char(c: char) -> bool {
    c == '\u{9}' || c == '\u{a}' || c == '\u{b}' || c == '\u{c}' || c == '\u{d}' || c == ' '
        || c == '\u{85}' || c == '\u{a0}' || c == '\u{1680}' || c == '\u{2000}' || c == '\u{2001}'
        || c == '\u{2002}' || c == '\u{2003}' || c == '\u{2004}' || c == '\u{2005}'
        || c == '\u{2006}' || c == '\u{2007}' || c == '\u{2008}' || c == '\u{2009}'
        || c == '\u{200a}' || c == '\u{2028}' || c == '\u{2029}' || c == '\u{202f}'
        || c == '\u{205f}' || c == '\u{3000}'
}

pub fn is_whitespace(c: char) -> (r: bool)
    ensures
        r == is_whitespace_char(c),
{
    c == '\u{9}' || c == '\u{a}' || c == '\u{b}' || c == '\u{c}' || c == '\u{d}' || c == ' '
        || c == '\u{85}' || c == '\u{a0}' || c == '\u{1680}' || c == '\u{2000}' || c == '\u{2001}'
        || c == '\u{2002}' || c == '\u{2003}' || c == '\u{2004}' || c == '\u{2005}'
        || c == '\u{2006}' || c == '\u{2007}' || c == '\u{2008}' || c == '\u{2009}'
        || c == '\u{200a}' || c == '\u{2028}' || c == '\u{2029}' || c == '\u{202f}'
        || c == '\u{205f}' || c == '\u{3000}'
}

pub open spec fn spec_trim_start(s: Seq<char>) -> Seq<char>
    decreases s.len(),
{
    if s.len() > 0 && is_whitespace_char(s.first()) {
        spec_trim_start(s.drop_first())
    } else {
        s
    }
}

pub open spec fn spec_trim_end(s: Seq<char>) -> Seq<char>
    decreases s.len(),
{
    if s.len() > 0 && is_whitespace_char(s.last()) {
        spec_trim_end(s.drop_last())
    } else {
        s
    }
}

/// The string with leading and trailing whitespace removed.
pub open spec fn spec_trim(s: Seq<char>) -> Seq<char> {
    spec_trim_start(spec_trim_end(s))
}

proof fn lemma_trim_start_range(s: Seq<char>, a: int)
    requires
        0 <= a <= s.len(),
        forall|i: int| 0 <= i < a ==> is_whitespace_char(s[i]),
        a < s.len() ==> !is_whitespace_char(s[a]),
    ensures
        spec_trim_start(s) == s.skip(a),
    decreases a,
{
    if a == 0 {
        assert(s.skip(0) =~= s);
        if s.len() > 0 {
            assert(s.first() == s[0]);
        }
    } else {
        assert(is_whitespace_char(s.first()));
        let t = s.drop_first();
        assert(t =~= s.skip(1));
        assert forall|i: int| 0 <= i < a - 1 implies is_whitespace_char(t[i]) by {
            assert(t[i] == s[i + 1]);
        }
        if a - 1 < t.len() {
            assert(t[a - 1] == s[a]);
        }
        lemma_trim_start_range(t, a - 1);
        assert(t.skip(a - 1) =~= s.skip(a));
    }
}

proof fn lemma_trim_end_range(s: Seq<char>, b: int)
    requires
        0 <= b <= s.len(),
        forall|i: int| b <= i < s.len() ==> is_whitespace_char(s[i]),
        b > 0 ==> !is_whitespace_char(s[b - 1]),
    ensures
        spec_trim_end(s) == s.take(b),
    decreases s.len() - b,
{
    if b == s.len() {
        assert(s.take(b) =~= s);
        if s.len() > 0 {
            assert(s.last() == s[s.len() - 1]);
        }
    } else {
        assert(is_whitespace_char(s.last()));
        let t = s.drop_last();
        assert(t =~= s.take(s.len() - 1));
        assert forall|i: int| b <= i < t.len() implies is_whitespace_char(t[i]) by {
            assert(t[i] == s[i]);
        }
        if b > 0 {
            assert(t[b - 1] == s[b - 1]);
        }
        lemma_trim_end_range(t, b);
        assert(t.take(b) =~= s.take(b));
    }
}

/// The slice with leading and trailing whitespace removed, as a fresh string.
pub fn trim(s: &str) -> (r: String)
    ensures
        r@ == spec_trim(s@),
{
    let n = s.unicode_len();
    let mut b: usize = n;
    loop
        invariant
            b <= n,
            n == s@.len(),
            forall|i: int| b <= i < n ==> is_whitespace_char(s@[i]),
        ensures
            b <= n,
            forall|i: int| b <= i < n ==> is_whitespace_char(s@[i]),
            b > 0 ==> !is_whitespace_char(s@[b - 1]),
        decreases b,
    {
        if b == 0 {
            break ;
        }
        if !is_whitespace(s.get_char(b - 1)) {
            break ;
        }
        b = b - 1;
    }
    proof {
        lemma_trim_end_range(s@, b as int);
    }
    let mut a: usize = 0;
    loop
        invariant
            a <= b <= n,
            n == s@.len(),
            forall|i: int| 0 <= i < a ==> is_whitespace_char(s@[i]),
        ensures
            a <= b,
            forall|i: int| 0 <= i < a ==> is_whitespace_char(s@[i]),
            a < b ==> !is_whitespace_char(s@[a as int]),
        decreases b - a,
    {
        if a == b {
            break ;
        }
        if !is_whitespace(s.get_char(a)) {
            break ;
        }
        a = a + 1;
    }
    let ghost trimmed_end = s@.take(b as int);
    proof {
        assert forall|i: int| 0 <= i < a implies is_whitespace_char(trimmed_end[i]) by {
            assert(trimmed_end[i] == s@[i]);
        }
        if a < b {
            assert(!is_whitespace_char(s@[a as int]));
            assert(trimmed_end[a as int] == s@[a as int]);
        } else {
            assert(a == b);
        }
        lemma_trim_start_range(trimmed_end, a as int);
    }
    let r = s.substring_char(a, b).to_owned();
    proof {
        assert(r@ =~= trimmed_end.skip(a as int));
    }
    r
}

/// The string with every `[]` replaced by `[ ]`, scanning left to right
/// without overlap, as the checklist shorthand is normalised.
pub open spec fn spec_fix_brackets(s: Seq<char>) -> Seq<char>
    decreases s.len(),
{
    if s.len() >= 2 && s[0] == '[' && s[1] == ']' {
        seq!['[', ' ', ']'] + spec_fix_brackets(s.skip(2))
    } else if s.len() >= 1 {
        seq![s[0]] + spec_fix_brackets(s.skip(1))
    } else {
        Seq::empty()
    }
}

/// Step of `spec_fix_brackets` over a stretch that starts no replacement.
proof fn lemma_fix_brackets_plain_step(s: Seq<char>, i: int)
    requires
        0 <= i < s.len(),
        !(i + 1 < s.len() && s[i] == '[' && s[i + 1] == ']'),
    ensures
        spec_fix_brackets(s.skip(i)) == seq![s[i]] + spec_fix_brackets(s.skip(i + 1)),
{
    let t = s.skip(i);
    assert(t[0] == s[i]);
    if t.len() >= 2 {
        assert(t[1] == s[i + 1]);
    }
    assert(t.skip(1) =~= s.skip(i + 1));
}

pub fn fix_brackets(s: &str) -> (r: String)
    ensures
        r@ == spec_fix_brackets(s@),
{
    let n = s.unicode_len();
    let mut out = String::new();
    let mut seg: usize = 0;
    let mut i: usize = 0;
    proof {
        assert(s@.skip(0) =~= s@);
        assert(out@ + s@.subrange(0, 0) =~= Seq::<char>::empty());
        assert(spec_fix_brackets(s@) == out@ + s@.subrange(0, 0) + spec_fix_brackets(
            s@.skip(0),
        ));
    }
    while i < n
        invariant
            seg <= i <= n,
            n == s@.len(),
            spec_fix_brackets(s@) == out@ + s@.subrange(seg as int, i as int) + spec_fix_brackets(
                s@.skip(i as int),
            ),
        decreases n - i,
    {
        if i + 1 < n && s.get_char(i) == '[' && s.get_char(i + 1) == ']' {
            let ghost out0 = out@;
            out.append(s.substring_char(seg, i));
            out.append("[ ]");
            proof {
                let t = s@.skip(i as int);
                assert(t[0] == s@[i as int]);
                assert(t[1] == s@[i as int + 1]);
                assert(t.skip(2) =~= s@.skip(i as int + 2));
                assert(spec_fix_brackets(t) == seq!['[', ' ', ']'] + spec_fix_brackets(
                    s@.skip(i as int + 2),
                ));
                reveal_strlit("[ ]");
                assert("[ ]"@ =~= seq!['[', ' ', ']']);
                assert(out@ =~= out0 + s@.subrange(seg as int, i as int) + seq!['[', ' ', ']']);
                assert(out@ + s@.subrange(i as int + 2, i as int + 2) + spec_fix_brackets(
                    s@.skip(i as int + 2),
                ) =~= out0 + s@.subrange(seg as int, i as int) + spec_fix_brackets(t));
            }
            i = i + 2;
            seg = i;
        } else {
            proof {
                lemma_fix_brackets_plain_step(s@, i as int);
                assert(s@.subrange(seg as int, i as int + 1) =~= s@.subrange(
                    seg as int,
                    i as int,
                ) + seq![s@[i as int]]);
                assert(out@ + s@.subrange(seg as int, i as int + 1) + spec_fix_brackets(
                    s@.skip(i as int + 1),
                ) =~= out@ + s@.subrange(seg as int, i as int) + spec_fix_brackets(
                    s@.skip(i as int),
                ));
            }
            i = i + 1;
        }
    }
    out.append(s.substring_char(seg, n));
    proof {
        assert(s@.skip(n as int) =~= Seq::<char>::empty());
        assert(out@ =~= spec_fix_brackets(s@));
    }
    out
}

/// The width in bytes of one character's UTF-8 encoding.
pub open spec fn char_utf8_width(c: char) -> nat {
    if (c as u32) < 0x80 {
        1
    } else if (c as u32) < 0x800 {
        2
    } else if (c as u32) < 0x10000 {
        3
    } else {
        4
    }
}

/// The width in bytes of one character, computed.
pub fn char_width(c: char) -> (r: usize)
    ensures
        r == char_utf8_width(c),
{
    let u = c as u32;
    if u < 0x80 {
        1
    } else if u < 0x800 {
        2
    } else if u < 0x10000 {
        3
    } else {
        4
    }
}

/// The length in bytes of a string's UTF-8 encoding.
pub open spec fn spec_utf8_len(s: Seq<char>) -> nat
    decreases s.len(),
{
    if s.len() == 0 {
        0
    } else {
        char_utf8_width(s.first()) + spec_utf8_len(s.drop_first())
    }
}

proof fn lemma_encode_scalar_width(c: char)
    ensures
        vstd::utf8::encode_scalar(c as u32).len() == char_utf8_width(c),
{
}

proof fn lemma_encode_utf8_len(s: Seq<char>)
    ensures
        vstd::utf8::encode_utf8(s).len() == spec_utf8_len(s),
    decreases s.len(),
{
    if s.len() > 0 {
        lemma_encode_scalar_width(s.first());
        lemma_encode_utf8_len(s.drop_first());
    }
}

/// The byte length of a string slice, as the original's `len()` measured it.
pub fn utf8_len(s: &str) -> (r: usize)
    ensures
        r == spec_utf8_len(s@),
{
    broadcast use vstd::slice::axiom_spec_len;

    proof {
        lemma_encode_utf8_len(s@);
    }
    let b = s.as_bytes();
    b.len()
}

/// Splitting a string at any point splits its byte length.
pub proof fn lemma_utf8_len_split(s: Seq<char>, k: int)
    requires
        0 <= k <= s.len(),
    ensures
        spec_utf8_len(s) == spec_utf8_len(s.take(k)) + spec_utf8_len(s.skip(k)),
    decreases k,
{
    if k == 0 {
        assert(s.take(0) =~= Seq::<char>::empty());
        assert(s.skip(0) =~= s);
    } else {
        let t = s.drop_first();
        assert(t =~= s.skip(1));
        lemma_utf8_len_split(t, k - 1);
        assert(t.take(k - 1) =~= s.take(k).drop_first());
        assert(t.skip(k - 1) =~= s.skip(k));
        assert(s.take(k).first() == s.first());
        assert(spec_utf8_len(s.take(k)) == char_utf8_width(s.first()) + spec_utf8_len(
            t.take(k - 1),
        ));
    }
}

/// A string with a nonzero byte length holds at least one character.
pub proof fn lemma_utf8_len_pos(s: Seq<char>)
    requires
        spec_utf8_len(s) > 0,
    ensures
        s.len() > 0,
{
}

/// A string's byte length grows strictly with every character taken.
pub proof fn lemma_utf8_len_strict(s: Seq<char>, k1: int, k2: int)
    requires
        0 <= k1 < k2 <= s.len(),
    ensures
        spec_utf8_len(s.take(k1)) < spec_utf8_len(s.take(k2)),
{
    lemma_utf8_len_split(s.take(k2), k1);
    assert(s.take(k2).take(k1) =~= s.take(k1));
    let tail = s.take(k2).skip(k1);
    assert(tail.len() == k2 - k1);
    lemma_utf8_len_ge_len(tail);
}

/// Every character takes at least one byte.
pub proof fn lemma_utf8_len_ge_len(s: Seq<char>)
    ensures
        spec_utf8_len(s) >= s.len(),
    decreases s.len(),
{
    if s.len() > 0 {
        lemma_utf8_len_ge_len(s.drop_first());
    }
}

/// The position of the first line break, or the length where there is none.
pub open spec fn first_newline(s: Seq<char>) -> int
    decreases s.len(),
{
    if s.len() == 0 {
        0
    } else if s.first() == '\n' {
        0
    } else {
        1 + first_newline(s.drop_first())
    }
}

/// A stretch without a line break, closed by one or by the end, places the
/// first line break.
pub proof fn lemma_first_newline_exact(s: Seq<char>, k: int)
    requires
        0 <= k <= s.len(),
        forall|j: int| 0 <= j < k ==> s[j] != '\n',
        k < s.len() ==> s[k] == '\n',
    ensures
        first_newline(s) == k,
    decreases k,
{
    if k == 0 {
    } else {
        assert(s[0] != '\n');
        let t = s.drop_first();
        assert forall|j: int| 0 <= j < k - 1 implies t[j] != '\n' by {
            assert(t[j] == s[j + 1]);
        }
        if k - 1 < t.len() {
            assert(t[k - 1] == s[k]);
        }
        lemma_first_newline_exact(t, k - 1);
    }
}

/// The string split at its line breaks; a trailing break yields a final
/// empty part, as `split` yields one.
pub open spec fn split_lines(s: Seq<char>) -> Seq<Seq<char>>
    decreases s.len(),
{
    let i = first_newline(s);
    if 0 <= i < s.len() {
        seq![s.take(i)] + split_lines(s.skip(i + 1))
    } else {
        seq![s]
    }
}

/// Only the parts whose byte length is above the threshold of three, in
/// order.
pub open spec fn keep_long_lines(parts: Seq<Seq<char>>) -> Seq<Seq<char>>
    decreases parts.len(),
{
    if parts.len() == 0 {
        Seq::empty()
    } else if spec_utf8_len(parts.first()) > 3 {
        seq![parts.first()] + keep_long_lines(parts.drop_first())
    } else {
        keep_long_lines(parts.drop_first())
    }
}

/// Splits the text at its line breaks and keeps the parts longer than three
/// bytes, as the checklist text is divided into significant lines.
pub fn split_long_lines(s: &str) -> (r: Vec<String>)
    ensures
        r.deep_view() == keep_long_lines(split_lines(s@)),
{
    let n = s.unicode_len();
    let mut out: Vec<String> = Vec::new();
    let mut seg: usize = 0;
    let mut i: usize = 0;
    proof {
        assert(s@.skip(0) =~= s@);
        assert(out.deep_view() + keep_long_lines(split_lines(s@.skip(0)))
            =~= keep_long_lines(split_lines(s@)));
    }
    loop
        invariant
            seg <= i <= n,
            n == s@.len(),
            forall|j: int| seg <= j < i ==> s@[j] != '\n',
            out.deep_view() + keep_long_lines(split_lines(s@.skip(seg as int)))
                == keep_long_lines(split_lines(s@)),
        ensures
            seg <= i == n,
            forall|j: int| seg <= j < i ==> s@[j] != '\n',
            out.deep_view() + keep_long_lines(split_lines(s@.skip(seg as int)))
                == keep_long_lines(split_lines(s@)),
        decreases n - i,
    {
        if i == n {
            break ;
        }
        if s.get_char(i) == '\n' {
            let ghost rest = s@.skip(seg as int);
            let line = s.substring_char(seg, i).to_owned();
            proof {
                assert(line@ =~= rest.take(i - seg as int));
                assert forall|j: int| 0 <= j < i - seg as int implies rest[j] != '\n' by {
                    assert(rest[j] == s@[seg + j]);
                }
                assert(rest[i - seg as int] == s@[i as int]);
                lemma_first_newline_exact(rest, i - seg as int);
                assert(rest.skip(i - seg as int + 1) =~= s@.skip(i as int + 1));
                assert(split_lines(rest) == seq![line@] + split_lines(s@.skip(i as int + 1)));
            }
            let ghost out0 = out.deep_view();
            let keep = utf8_len(line.as_str()) > 3;
            if keep {
                out.push(line);
                proof {
                    assert(out.deep_view() =~= out0.push(line@));
                }
            }
            proof {
                let tail = split_lines(s@.skip(i as int + 1));
                assert(split_lines(rest).first() == line@);
                assert(split_lines(rest).drop_first() =~= tail);
                if keep {
                    assert(keep_long_lines(split_lines(rest)) == seq![line@] + keep_long_lines(
                        tail,
                    ));
                    assert(out.deep_view() + keep_long_lines(tail) =~= out0 + keep_long_lines(
                        split_lines(rest),
                    ));
                } else {
                    assert(keep_long_lines(split_lines(rest)) == keep_long_lines(tail));
                }
            }
            i = i + 1;
            seg = i;
        } else {
            i = i + 1;
        }
    }
    let ghost rest = s@.skip(seg as int);
    let line = s.substring_char(seg, n).to_owned();
    proof {
        assert(line@ =~= rest);
        assert forall|j: int| 0 <= j < rest.len() implies rest[j] != '\n' by {
            assert(rest[j] == s@[seg + j]);
        }
        lemma_first_newline_exact(rest, rest.len() as int);
        assert(split_lines(rest) == seq![rest]);
    }
    let ghost out0 = out.deep_view();
    let keep = utf8_len(line.as_str()) > 3;
    if keep {
        out.push(line);
        proof {
            assert(out.deep_view() =~= out0.push(rest));
        }
    }
    proof {
        assert(split_lines(rest).first() == rest);
        assert(split_lines(rest).drop_first() =~= Seq::<Seq<char>>::empty());
        assert(keep_long_lines(Seq::<Seq<char>>::empty()) =~= Seq::<Seq<char>>::empty());
        if keep {
            assert(keep_long_lines(split_lines(rest)) =~= seq![rest]);
            assert(out.deep_view() =~= out0 + keep_long_lines(split_lines(rest)));
        } else {
            assert(keep_long_lines(split_lines(rest)) =~= Seq::<Seq<char>>::empty());
            assert(out.deep_view() =~= out0 + keep_long_lines(split_lines(rest)));
        }
        assert(out.deep_view() =~= keep_long_lines(split_lines(s@)));
    }
    out
}

/// The parts joined with the separator between each two of them.
pub open spec fn spec_join(parts: Seq<Seq<char>>, sep: Seq<char>) -> Seq<char>
    decreases parts.len(),
{
    if parts.len() == 0 {
        Seq::empty()
    } else if parts.len() == 1 {
        parts[0]
    } else {
        spec_join(parts.drop_last(), sep) + sep + parts.last()
    }
}

/// Character-for-character equality of two string slices.
pub fn str_eq(a: &str, b: &str) -> (r: bool)
    ensures
        r == (a@ == b@),
{
    let alen = a.unicode_len();
    let blen = b.unicode_len();
    if alen != blen {
        return false;
    }
    let mut i: usize = 0;
    while i < alen
        invariant
            alen == a@.len(),
            blen == b@.len(),
            alen == blen,
            i <= alen,
            forall|j: int| 0 <= j < i ==> a@[j] == b@[j],
        decreases alen - i,
    {
        if a.get_char(i) != b.get_char(i) {
            return false;
        }
        i = i + 1;
    }
    proof {
        assert(a@ =~= b@);
    }
    true
}

pub open spec fn spec_bool_chars(b: bool) -> Seq<char> {
    if b {
        "true"@
    } else {
        "false"@
    }
}

/// The textual form of a boolean, as it appears in a query string.
pub fn bool_str(b: bool) -> (r: &'static str)
    ensures
        r@ == spec_bool_chars(b),
{
    if b {
        "true"
    } else {
        "false"
    }
}

} // verus!
