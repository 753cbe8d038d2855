use vstd::prelude::*;

use crate::text::{
    is_digit_char, lemma_digits_val_of_nat_digits, lemma_nat_digits_are_digits,
    lemma_nat_digits_len_bound, pow10, spec_digits_val, spec_nat_digits, u64_to_string,
};

verus! {

// The snapshot and the config are persisted as structured text. Every value
// is written as a line-delimited token stream: numbers as decimal digits,
// strings length-prefixed so that any text can be carried, options and
// vectors with a count in front. Writing and reading back are proved inverse
// of each other.

/// One number token: its digits and the line end.
pub open spec fn render_u64(n: u64) -> Seq<char> {
    spec_nat_digits(n as nat) + "\n"@
}

/// The length of the digit run at `pos`.
pub open spec fn digit_run(s: Seq<char>, pos: int) -> int
    decreases s.len() - pos,
{
    if pos < 0 || pos >= s.len() {
        0
    } else if is_digit_char(s[pos]) {
        1 + digit_run(s, pos + 1)
    } else {
        0
    }
}

/// What reading a number token at `pos` yields: the value and the position
/// after the token. A run of no digits, of more than twenty, or a value over
/// the unsigned range, or a missing line end, is a malformed file.
pub open spec fn parse_u64_at(s: Seq<char>, pos: int) -> Option<(u64, int)> {
    let run = digit_run(s, pos);
    if run == 0 || run > 20 {
        Option::None
    } else {
        let v = spec_digits_val(s.subrange(pos, pos + run));
        if v > u64::MAX {
            Option::None
        } else if pos + run < s.len() && s[pos + run] == '\n' {
            Option::Some(((v as u64), pos + run + 1))
        } else {
            Option::None
        }
    }
}

proof fn lemma_pow10_increases(a: nat, b: nat)
    requires
        a <= b,
    ensures
        pow10(a) <= pow10(b),
    decreases b,
{
    if a < b {
        lemma_pow10_increases(a, (b - 1) as nat);
    }
}

proof fn lemma_pow10_20()
    ensures
        pow10(20) == 0x56BC75E2D63100000,
        pow10(20) > u64::MAX,
{
    assert(pow10(0) == 1);
    assert(pow10(1) == 10);
    assert(pow10(2) == 100);
    assert(pow10(3) == 1000);
    assert(pow10(4) == 10000);
    assert(pow10(5) == 100000);
    assert(pow10(6) == 1000000);
    assert(pow10(7) == 10000000);
    assert(pow10(8) == 100000000);
    assert(pow10(9) == 1000000000);
    assert(pow10(10) == 10000000000);
    assert(pow10(11) == 100000000000);
    assert(pow10(12) == 1000000000000);
    assert(pow10(13) == 10000000000000);
    assert(pow10(14) == 100000000000000);
    assert(pow10(15) == 1000000000000000);
    assert(pow10(16) == 10000000000000000);
    assert(pow10(17) == 100000000000000000);
    assert(pow10(18) == 1000000000000000000);
    assert(pow10(19) == 10000000000000000000);
    assert(pow10(20) == 100000000000000000000);
}

/// A run of digits followed by a non-digit, or by the end, is the maximal
/// run.
proof fn lemma_digit_run_exact(s: Seq<char>, pos: int, k: int)
    requires
        0 <= pos,
        0 <= k,
        pos + k <= s.len(),
        forall|j: int| 0 <= j < k ==> is_digit_char(#[trigger] s[pos + j]),
        pos + k == s.len() || !is_digit_char(s[pos + k]),
    ensures
        digit_run(s, pos) == k,
    decreases k,
{
    if k == 0 {
    } else {
        assert(s[pos + 0] == s[pos]);
        assert(is_digit_char(s[pos]));
        assert forall|j: int| 0 <= j < k - 1 implies is_digit_char(#[trigger] s[pos + 1 + j]) by {
            assert(s[pos + 1 + j] == s[pos + (j + 1)]);
        }
        lemma_digit_run_exact(s, pos + 1, k - 1);
    }
}

/// A concatenation written at `pos` splits into its two parts.
pub proof fn lemma_split_concat(s: Seq<char>, pos: int, a: Seq<char>, b: Seq<char>)
    requires
        0 <= pos,
        pos + a.len() + b.len() <= s.len(),
        s.subrange(pos, pos + a.len() + b.len()) == a + b,
    ensures
        s.subrange(pos, pos + a.len()) == a,
        s.subrange(pos + a.len(), pos + a.len() + b.len()) == b,
{
    let ab = s.subrange(pos, pos + a.len() + b.len());
    assert forall|i: int| 0 <= i < a.len() implies s.subrange(pos, pos + a.len())[i] == a[i] by {
        assert(ab[i] == (a + b)[i]);
    }
    assert(s.subrange(pos, pos + a.len()) =~= a);
    assert forall|i: int|
        0 <= i < b.len() implies s.subrange(pos + a.len(), pos + a.len() + b.len())[i] == b[i] by {
        assert(ab[a.len() + i] == (a + b)[a.len() + i]);
    }
    assert(s.subrange(pos + a.len(), pos + a.len() + b.len()) =~= b);
}

/// Reading a written number token at its position yields the number.
pub proof fn lemma_parse_u64_render(s: Seq<char>, pos: int, n: u64)
    requires
        0 <= pos,
        pos + render_u64(n).len() <= s.len(),
        s.subrange(pos, pos + render_u64(n).len()) == render_u64(n),
    ensures
        parse_u64_at(s, pos) == Option::Some((n, pos + render_u64(n).len())),
{
    let d = spec_nat_digits(n as nat);
    let r = render_u64(n);
    lemma_nat_digits_are_digits(n as nat);
    lemma_pow10_20();
    lemma_nat_digits_len_bound(n as nat, 20);
    reveal_strlit("\n");
    assert(r.len() == d.len() + 1);
    assert forall|j: int| 0 <= j < d.len() implies is_digit_char(#[trigger] s[pos + j]) by {
        assert(s.subrange(pos, pos + r.len())[j] == r[j]);
        assert(r[j] == d[j]);
    }
    assert(s.subrange(pos, pos + r.len())[d.len() as int] == r[d.len() as int]);
    assert(s[pos + d.len()] == '\n');
    assert(!is_digit_char('\n'));
    lemma_digit_run_exact(s, pos, d.len() as int);
    assert(digit_run(s, pos) == d.len());
    assert(d.len() <= 20);
    assert(s.subrange(pos, pos + d.len()) =~= d) by {
        assert forall|j: int| 0 <= j < d.len() implies s.subrange(pos, pos + d.len())[j]
            == d[j] by {
            assert(s.subrange(pos, pos + r.len())[j] == r[j]);
        }
    }
    lemma_digits_val_of_nat_digits(n as nat);
    assert(spec_digits_val(s.subrange(pos, pos + d.len())) == n as nat);
}

/// Writes one number token.
pub fn write_u64(out: &mut String, n: u64)
    ensures
        final(out)@ == old(out)@ + render_u64(n),
{
    out.append(u64_to_string(n).as_str());
    out.append("\n");
    proof {
        assert(out@ =~= old(out)@ + render_u64(n));
    }
}

/// Reads one number token.
pub fn parse_u64(s: &str, pos: usize) -> (r: Option<(u64, usize)>)
    requires
        pos <= s@.len(),
    ensures
        match r {
            Option::Some((v, p)) => parse_u64_at(s@, pos as int) == Option::Some((v, p as int))
                && pos < p <= s@.len(),
            Option::None => parse_u64_at(s@, pos as int) is None,
        },
{
    let n = s.unicode_len();
    let mut run: usize = 0;
    loop
        invariant
            pos + run <= n,
            n == s@.len(),
            forall|j: int| 0 <= j < run ==> is_digit_char(#[trigger] s@[pos + j]),
        ensures
            pos + run <= n,
            forall|j: int| 0 <= j < run ==> is_digit_char(#[trigger] s@[pos + j]),
            pos + run == n || !is_digit_char(s@[pos + run]),
        decreases n - pos - run,
    {
        if pos + run == n {
            break ;
        }
        let c = s.get_char(pos + run);
        if !('0' <= c && c <= '9') {
            proof {
                assert(!is_digit_char(s@[pos + run]));
            }
            break ;
        }
        run = run + 1;
    }
    proof {
        lemma_digit_run_exact(s@, pos as int, run as int);
    }
    if run == 0 || run > 20 {
        return Option::None;
    }
    let ghost digits = s@.subrange(pos as int, pos as int + run);
    let mut acc: u128 = 0;
    let mut j: usize = 0;
    proof {
        lemma_pow10_20();
        assert(digits.subrange(0, 0) =~= Seq::<char>::empty());
    }
    while j < run
        invariant
            j <= run,
            run <= 20,
            pos + run <= s@.len(),
            pos + run <= usize::MAX,
            digits == s@.subrange(pos as int, pos as int + run),
            forall|m: int| 0 <= m < run ==> is_digit_char(#[trigger] s@[pos + m]),
            acc == spec_digits_val(digits.subrange(0, j as int)),
            acc < pow10(j as nat),
            pow10(20) == 0x56BC75E2D63100000,
        decreases run - j,
    {
        let c = s.get_char(pos + j);
        proof {
            assert(digits[j as int] == s@[pos + j as int]);
            assert(is_digit_char(c));
            assert(digits.subrange(0, j as int + 1).drop_last() =~= digits.subrange(0, j as int));
            assert(digits.subrange(0, j as int + 1).last() == digits[j as int]);
            lemma_pow10_increases(j as nat + 1, 20);
            assert(pow10(j as nat + 1) == 10 * pow10(j as nat));
            assert(acc * 10 + 9 < pow10(j as nat + 1));
            assert(pow10(j as nat + 1) <= pow10(20));
            assert('0' <= c && c <= '9');
            assert(c as u32 >= '0' as u32);
        }
        let d: u128 = (c as u32 - '0' as u32) as u128;
        proof {
            assert(is_digit_char(c));
            assert(d <= 9);
        }
        acc = acc * 10 + d;
        j = j + 1;
    }
    proof {
        assert(digits.subrange(0, run as int) =~= digits);
    }
    if acc > u64::MAX as u128 {
        return Option::None;
    }
    if pos + run < n && s.get_char(pos + run) == '\n' {
        Option::Some(((acc as u64), pos + run + 1))
    } else {
        Option::None
    }
}

/// A number token bounded to the unsigned 32-bit range.
pub open spec fn render_u32(n: u32) -> Seq<char> {
    render_u64(n as u64)
}

pub open spec fn parse_u32_at(s: Seq<char>, pos: int) -> Option<(u32, int)> {
    match parse_u64_at(s, pos) {
        Option::Some((v, p)) => if v <= u32::MAX as u64 {
            Option::Some(((v as u32), p))
        } else {
            Option::None
        },
        Option::None => Option::None,
    }
}

pub proof fn lemma_parse_u32_render(s: Seq<char>, pos: int, n: u32)
    requires
        0 <= pos,
        pos + render_u32(n).len() <= s.len(),
        s.subrange(pos, pos + render_u32(n).len()) == render_u32(n),
    ensures
        parse_u32_at(s, pos) == Option::Some((n, pos + render_u32(n).len())),
{
    lemma_parse_u64_render(s, pos, n as u64);
}

pub fn write_u32(out: &mut String, n: u32)
    ensures
        final(out)@ == old(out)@ + render_u32(n),
{
    write_u64(out, n as u64);
}

pub fn parse_u32(s: &str, pos: usize) -> (r: Option<(u32, usize)>)
    requires
        pos <= s@.len(),
    ensures
        match r {
            Option::Some((v, p)) => parse_u32_at(s@, pos as int) == Option::Some((v, p as int))
                && pos < p <= s@.len(),
            Option::None => parse_u32_at(s@, pos as int) is None,
        },
{
    match parse_u64(s, pos) {
        Option::Some((v, p)) => {
            if v <= u32::MAX as u64 {
                Option::Some(((v as u32), p))
            } else {
                Option::None
            }
        },
        Option::None => Option::None,
    }
}

/// A number token bounded to the unsigned 8-bit range.
pub open spec fn render_u8(n: u8) -> Seq<char> {
    render_u64(n as u64)
}

pub open spec fn parse_u8_at(s: Seq<char>, pos: int) -> Option<(u8, int)> {
    match parse_u64_at(s, pos) {
        Option::Some((v, p)) => if v <= u8::MAX as u64 {
            Option::Some(((v as u8), p))
        } else {
            Option::None
        },
        Option::None => Option::None,
    }
}

pub proof fn lemma_parse_u8_render(s: Seq<char>, pos: int, n: u8)
    requires
        0 <= pos,
        pos + render_u8(n).len() <= s.len(),
        s.subrange(pos, pos + render_u8(n).len()) == render_u8(n),
    ensures
        parse_u8_at(s, pos) == Option::Some((n, pos + render_u8(n).len())),
{
    lemma_parse_u64_render(s, pos, n as u64);
}

pub fn write_u8(out: &mut String, n: u8)
    ensures
        final(out)@ == old(out)@ + render_u8(n),
{
    write_u64(out, n as u64);
}

pub fn parse_u8(s: &str, pos: usize) -> (r: Option<(u8, usize)>)
    requires
        pos <= s@.len(),
    ensures
        match r {
            Option::Some((v, p)) => parse_u8_at(s@, pos as int) == Option::Some((v, p as int))
                && pos < p <= s@.len(),
            Option::None => parse_u8_at(s@, pos as int) is None,
        },
{
    match parse_u64(s, pos) {
        Option::Some((v, p)) => {
            if v <= u8::MAX as u64 {
                Option::Some(((v as u8), p))
            } else {
                Option::None
            }
        },
        Option::None => Option::None,
    }
}

/// A signed number token: a minus sign, where one is needed, then digits.
pub open spec fn render_i64(n: i64) -> Seq<char> {
    if n < 0 {
        "-"@ + render_u64(((0 - n as int)) as u64)
    } else {
        render_u64(n as u64)
    }
}

pub open spec fn parse_i64_at(s: Seq<char>, pos: int) -> Option<(i64, int)> {
    if 0 <= pos < s.len() && s[pos] == '-' {
        match parse_u64_at(s, pos + 1) {
            Option::Some((v, p)) => if v as int <= 0x8000000000000000 {
                Option::Some((((0 - v as int) as i64), p))
            } else {
                Option::None
            },
            Option::None => Option::None,
        }
    } else {
        match parse_u64_at(s, pos) {
            Option::Some((v, p)) => if v <= i64::MAX as u64 {
                Option::Some(((v as i64), p))
            } else {
                Option::None
            },
            Option::None => Option::None,
        }
    }
}

pub proof fn lemma_parse_i64_render(s: Seq<char>, pos: int, n: i64)
    requires
        0 <= pos,
        pos + render_i64(n).len() <= s.len(),
        s.subrange(pos, pos + render_i64(n).len()) == render_i64(n),
    ensures
        parse_i64_at(s, pos) == Option::Some((n, pos + render_i64(n).len())),
{
    reveal_strlit("-");
    if n < 0 {
        let mag = ((0 - n as int)) as u64;
        let a = "-"@;
        let b = render_u64(mag);
        assert(render_i64(n) == a + b);
        lemma_split_concat(s, pos, a, b);
        assert(s.subrange(pos, pos + 1)[0] == '-');
        assert(s[pos] == '-');
        lemma_parse_u64_render(s, pos + 1, mag);
        assert(mag as int <= 0x8000000000000000);
        assert((0 - mag as int) as i64 == n);
    } else {
        lemma_parse_u64_render(s, pos, n as u64);
        let d = render_u64(n as u64);
        assert(s.subrange(pos, pos + d.len())[0] == d[0]);
        lemma_nat_digits_are_digits((n as u64) as nat);
        assert(is_digit_char(d[0]));
        assert(s[pos] != '-');
    }
}

pub fn write_i64(out: &mut String, n: i64)
    ensures
        final(out)@ == old(out)@ + render_i64(n),
{
    if n < 0 {
        let mag: u64 = ((-(n + 1)) as u64) + 1;
        proof {
            assert(mag as int == 0 - n as int);
        }
        out.append("-");
        write_u64(out, mag);
        proof {
            assert(out@ =~= old(out)@ + render_i64(n));
        }
    } else {
        write_u64(out, n as u64);
    }
}

pub fn parse_i64(s: &str, pos: usize) -> (r: Option<(i64, usize)>)
    requires
        pos <= s@.len(),
    ensures
        match r {
            Option::Some((v, p)) => parse_i64_at(s@, pos as int) == Option::Some((v, p as int))
                && pos < p <= s@.len(),
            Option::None => parse_i64_at(s@, pos as int) is None,
        },
{
    let n = s.unicode_len();
    if pos < n && s.get_char(pos) == '-' {
        match parse_u64(s, pos + 1) {
            Option::Some((v, p)) => {
                if v <= i64::MAX as u64 {
                    Option::Some(((-(v as i64)), p))
                } else if v == 0x8000000000000000u64 {
                    Option::Some((i64::MIN, p))
                } else {
                    Option::None
                }
            },
            Option::None => Option::None,
        }
    } else {
        match parse_u64(s, pos) {
            Option::Some((v, p)) => {
                if v <= i64::MAX as u64 {
                    Option::Some(((v as i64), p))
                } else {
                    Option::None
                }
            },
            Option::None => Option::None,
        }
    }
}

/// A boolean token: zero or one.
pub open spec fn render_bool(b: bool) -> Seq<char> {
    render_u64(
        if b {
            1u64
        } else {
            0u64
        },
    )
}

pub open spec fn parse_bool_at(s: Seq<char>, pos: int) -> Option<(bool, int)> {
    match parse_u64_at(s, pos) {
        Option::Some((v, p)) => if v == 0 {
            Option::Some((false, p))
        } else if v == 1 {
            Option::Some((true, p))
        } else {
            Option::None
        },
        Option::None => Option::None,
    }
}

pub proof fn lemma_parse_bool_render(s: Seq<char>, pos: int, b: bool)
    requires
        0 <= pos,
        pos + render_bool(b).len() <= s.len(),
        s.subrange(pos, pos + render_bool(b).len()) == render_bool(b),
    ensures
        parse_bool_at(s, pos) == Option::Some((b, pos + render_bool(b).len())),
{
    lemma_parse_u64_render(
        s,
        pos,
        if b {
            1u64
        } else {
            0u64
        },
    );
}

pub fn write_bool(out: &mut String, b: bool)
    ensures
        final(out)@ == old(out)@ + render_bool(b),
{
    write_u64(
        out,
        if b {
            1u64
        } else {
            0u64
        },
    );
}

pub fn parse_bool(s: &str, pos: usize) -> (r: Option<(bool, usize)>)
    requires
        pos <= s@.len(),
    ensures
        match r {
            Option::Some((v, p)) => parse_bool_at(s@, pos as int) == Option::Some((v, p as int))
                && pos < p <= s@.len(),
            Option::None => parse_bool_at(s@, pos as int) is None,
        },
{
    match parse_u64(s, pos) {
        Option::Some((v, p)) => {
            if v == 0 {
                Option::Some((false, p))
            } else if v == 1 {
                Option::Some((true, p))
            } else {
                Option::None
            }
        },
        Option::None => Option::None,
    }
}

/// A role token, under the file's own coding: unset, member, responsible.
pub open spec fn render_role(role: crate::models::user::Role) -> Seq<char> {
    render_u64(
        match role {
            crate::models::user::Role::Unset => 0u64,
            crate::models::user::Role::Member => 1u64,
            crate::models::user::Role::Responsible => 2u64,
        },
    )
}

pub open spec fn parse_role_at(s: Seq<char>, pos: int) -> Option<(crate::models::user::Role, int)> {
    match parse_u64_at(s, pos) {
        Option::Some((v, p)) => if v == 0 {
            Option::Some((crate::models::user::Role::Unset, p))
        } else if v == 1 {
            Option::Some((crate::models::user::Role::Member, p))
        } else if v == 2 {
            Option::Some((crate::models::user::Role::Responsible, p))
        } else {
            Option::None
        },
        Option::None => Option::None,
    }
}

pub proof fn lemma_parse_role_render(s: Seq<char>, pos: int, role: crate::models::user::Role)
    requires
        0 <= pos,
        pos + render_role(role).len() <= s.len(),
        s.subrange(pos, pos + render_role(role).len()) == render_role(role),
    ensures
        parse_role_at(s, pos) == Option::Some((role, pos + render_role(role).len())),
{
    lemma_parse_u64_render(
        s,
        pos,
        match role {
            crate::models::user::Role::Unset => 0u64,
            crate::models::user::Role::Member => 1u64,
            crate::models::user::Role::Responsible => 2u64,
        },
    );
}

pub fn write_role(out: &mut String, role: crate::models::user::Role)
    ensures
        final(out)@ == old(out)@ + render_role(role),
{
    write_u64(
        out,
        match role {
            crate::models::user::Role::Unset => 0u64,
            crate::models::user::Role::Member => 1u64,
            crate::models::user::Role::Responsible => 2u64,
        },
    );
}

pub fn parse_role(s: &str, pos: usize) -> (r: Option<(crate::models::user::Role, usize)>)
    requires
        pos <= s@.len(),
    ensures
        match r {
            Option::Some((v, p)) => parse_role_at(s@, pos as int) == Option::Some((v, p as int))
                && pos < p <= s@.len(),
            Option::None => parse_role_at(s@, pos as int) is None,
        },
{
    match parse_u64(s, pos) {
        Option::Some((v, p)) => {
            if v == 0 {
                Option::Some((crate::models::user::Role::Unset, p))
            } else if v == 1 {
                Option::Some((crate::models::user::Role::Member, p))
            } else if v == 2 {
                Option::Some((crate::models::user::Role::Responsible, p))
            } else {
                Option::None
            }
        },
        Option::None => Option::None,
    }
}

/// A text token: its length, then exactly that many characters, then the line
/// end. The length prefix lets the text itself carry anything, line ends
/// included.
pub open spec fn render_str(t: Seq<char>) -> Seq<char> {
    render_u64(t.len() as u64) + t + "\n"@
}

/// A text whose length survives the length prefix: real strings always do.
pub open spec fn str_ok(t: Seq<char>) -> bool {
    t.len() <= u64::MAX
}

pub open spec fn parse_str_at(s: Seq<char>, pos: int) -> Option<(Seq<char>, int)> {
    match parse_u64_at(s, pos) {
        Option::Some((len, p)) => if p + len + 1 <= s.len() && s[p + len] == '\n' {
            Option::Some((s.subrange(p, p + len), p + len + 1))
        } else {
            Option::None
        },
        Option::None => Option::None,
    }
}

pub proof fn lemma_parse_str_render(s: Seq<char>, pos: int, t: Seq<char>)
    requires
        0 <= pos,
        str_ok(t),
        pos + render_str(t).len() <= s.len(),
        s.subrange(pos, pos + render_str(t).len()) == render_str(t),
    ensures
        parse_str_at(s, pos) == Option::Some((t, pos + render_str(t).len())),
{
    reveal_strlit("\n");
    let a = render_u64(t.len() as u64);
    let b = t + "\n"@;
    assert(render_str(t) == a + b);
    lemma_split_concat(s, pos, a, b);
    lemma_parse_u64_render(s, pos, t.len() as u64);
    let p = pos + a.len();
    assert(s.subrange(p, p + b.len()) == b);
    lemma_split_concat(s, p, t, "\n"@);
    assert(s.subrange(p, p + t.len()) == t);
    assert(s.subrange(p + t.len(), p + t.len() + 1)[0] == '\n');
    assert(s[p + t.len()] == '\n');
}

pub fn write_str(out: &mut String, t: &str)
    ensures
        final(out)@ == old(out)@ + render_str(t@),
{
    let len = t.unicode_len();
    write_u64(out, len as u64);
    out.append(t);
    out.append("\n");
    proof {
        assert(out@ =~= old(out)@ + render_str(t@));
    }
}

pub fn parse_str(s: &str, pos: usize) -> (r: Option<(String, usize)>)
    requires
        pos <= s@.len(),
    ensures
        match r {
            Option::Some((v, p)) => parse_str_at(s@, pos as int) == Option::Some((v@, p as int))
                && pos < p <= s@.len(),
            Option::None => parse_str_at(s@, pos as int) is None,
        },
{
    let n = s.unicode_len();
    match parse_u64(s, pos) {
        Option::Some((len, p)) => {
            if len <= (n - p) as u64 && p + (len as usize) < n && s.get_char(p + (len as usize))
                == '\n' {
                let body = s.substring_char(p, p + (len as usize)).to_owned();
                Option::Some((body, p + (len as usize) + 1))
            } else {
                Option::None
            }
        },
        Option::None => Option::None,
    }
}

} // verus!
