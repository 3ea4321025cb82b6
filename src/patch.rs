//! The line patcher: finds the index that follows the `" hwmon "` marker in a
//! configuration line and writes another index in its place.
use vstd::prelude::*;
use crate::text::{
    chars_of, digit_chars, digit_value, find, first_occurrence, is_digit,
    lemma_first_occurrence_from, lemma_first_occurrence_prefix, lemma_skip_spaces,
    lemma_skip_spaces_at, lemma_token_end, lemma_token_end_at, skip_spaces, token_end,
};

verus! {

/// The marker after which a hardware-monitor index stands.
pub open spec fn marker() -> Seq<char> {
    seq![' ', 'h', 'w', 'm', 'o', 'n', ' ']
}

/// Decimal notation of a natural number, most significant digit first.
pub open spec fn decimal_nat(n: nat) -> Seq<char>
    decreases n,
{
    if n < 10 {
        seq![digit_chars()[n as int]]
    } else {
        decimal_nat(n / 10) + seq![digit_chars()[(n % 10) as int]]
    }
}

/// Decimal notation of an integer, with a leading `-` when it is negative.
pub open spec fn decimal(m: int) -> Seq<char> {
    if m < 0 {
        seq!['-'] + decimal_nat((-m) as nat)
    } else {
        decimal_nat(m as nat)
    }
}

/// The number that a run of decimal digits denotes.
pub open spec fn digits_value(t: Seq<char>) -> nat
    decreases t.len(),
{
    if t.len() == 0 {
        0
    } else {
        (digits_value(t.drop_last()) * 10 + digit_value(t.last())) as nat
    }
}

/// A token that reads as an unsigned 32-bit integer: one or more decimal
/// digits, with no sign, whose value fits in 32 bits.
pub open spec fn is_index_token(t: Seq<char>) -> bool {
    &&& t.len() > 0
    &&& forall|k: int| 0 <= k < t.len() ==> is_digit(#[trigger] t[k])
    &&& digits_value(t) <= u32::MAX
}

/// The integer a replacement index stands for, if any.
pub open spec fn index_of(mon: Option<i32>) -> Option<int> {
    match mon {
        Some(m) => Some(m as int),
        None => None,
    }
}

/// `line` with the token after the first `" hwmon "` marker replaced by the
/// decimal notation of `mon`, when there is a replacement, the marker occurs,
/// and that token reads as an index; otherwise `line` itself.
pub open spec fn patched(line: Seq<char>, mon: Option<int>) -> Seq<char> {
    match mon {
        None => line,
        Some(m) => match first_occurrence(line, marker()) {
            None => line,
            Some(i) => {
                let b = skip_spaces(line, i + marker().len());
                let e = token_end(line, b);
                if is_index_token(line.subrange(b, e)) {
                    line.subrange(0, b) + decimal(m) + line.subrange(e, line.len() as int)
                } else {
                    line
                }
            },
        },
    }
}

/// The one-character text of a decimal digit.
fn digit_text(d: u32) -> (r: &'static str)
    requires
        d < 10,
    ensures
        r@ == seq![digit_chars()[d as int]],
{
    proof {
        reveal_strlit("0");
        reveal_strlit("1");
        reveal_strlit("2");
        reveal_strlit("3");
        reveal_strlit("4");
        reveal_strlit("5");
        reveal_strlit("6");
        reveal_strlit("7");
        reveal_strlit("8");
        reveal_strlit("9");
    }
    let r = if d == 0 {
        "0"
    } else if d == 1 {
        "1"
    } else if d == 2 {
        "2"
    } else if d == 3 {
        "3"
    } else if d == 4 {
        "4"
    } else if d == 5 {
        "5"
    } else if d == 6 {
        "6"
    } else if d == 7 {
        "7"
    } else if d == 8 {
        "8"
    } else {
        "9"
    };
    assert(r@ =~= seq![digit_chars()[d as int]]);
    r
}

/// Appends the decimal notation of `n` to `out`.
fn push_decimal_nat(out: &mut String, n: u32)
    ensures
        final(out)@ == old(out)@ + decimal_nat(n as nat),
    decreases n,
{
    if n >= 10 {
        push_decimal_nat(out, n / 10);
    }
    out.append(digit_text(n % 10));
    proof {
        assert(final(out)@ =~= old(out)@ + decimal_nat(n as nat));
    }
}

/// Appends the decimal notation of `m` to `out`.
pub fn push_decimal(out: &mut String, m: i32)
    ensures
        final(out)@ == old(out)@ + decimal(m as int),
{
    if m < 0 {
        proof {
            reveal_strlit("-");
        }
        out.append("-");
        let magnitude: u32 = if m == i32::MIN {
            2147483648u32
        } else {
            (-m) as u32
        };
        push_decimal_nat(out, magnitude);
        assert(final(out)@ =~= old(out)@ + decimal(m as int));
    } else {
        push_decimal_nat(out, m as u32);
    }
}

/// The first position at or after `from` that does not hold a space.
fn skip_spaces_from(s: &Vec<char>, from: usize) -> (r: usize)
    requires
        from <= s@.len(),
    ensures
        r as int == skip_spaces(s@, from as int),
        from <= r <= s@.len(),
{
    let mut p = from;
    while p < s.len() && s[p] == ' '
        invariant
            from <= p <= s@.len(),
            skip_spaces(s@, from as int) == skip_spaces(s@, p as int),
        decreases s@.len() - p,
    {
        p += 1;
    }
    p
}

/// The first position at or after `from` that holds a space, or the end.
fn token_end_from(s: &Vec<char>, from: usize) -> (r: usize)
    requires
        from <= s@.len(),
    ensures
        r as int == token_end(s@, from as int),
        from <= r <= s@.len(),
{
    let mut p = from;
    while p < s.len() && s[p] != ' '
        invariant
            from <= p <= s@.len(),
            token_end(s@, from as int) == token_end(s@, p as int),
        decreases s@.len() - p,
    {
        p += 1;
    }
    p
}

/// `digits_value` of a prefix extended by one character.
proof fn lemma_digits_value_step(t: Seq<char>, k: int)
    requires
        0 <= k < t.len(),
        is_digit(t[k]),
    ensures
        digits_value(t.subrange(0, k + 1)) == digits_value(t.subrange(0, k)) * 10 + digit_value(
            t[k],
        ),
{
    assert(t.subrange(0, k + 1).drop_last() =~= t.subrange(0, k));
    assert(t.subrange(0, k + 1).last() == t[k]);
}

/// A run of digits denotes at least what any of its prefixes denotes.
proof fn lemma_digits_value_grows(t: Seq<char>, k: int)
    requires
        0 <= k <= t.len(),
        forall|j: int| 0 <= j < t.len() ==> is_digit(#[trigger] t[j]),
    ensures
        digits_value(t.subrange(0, k)) <= digits_value(t),
    decreases t.len() - k,
{
    if k < t.len() {
        lemma_digits_value_grows(t, k + 1);
        lemma_digits_value_step(t, k);
    } else {
        assert(t.subrange(0, k) =~= t);
    }
}

/// Whether `s[from..to]` reads as an unsigned 32-bit index.
fn is_index_token_at(s: &Vec<char>, from: usize, to: usize) -> (r: bool)
    requires
        from <= to <= s@.len(),
    ensures
        r == is_index_token(s@.subrange(from as int, to as int)),
{
    let ghost t = s@.subrange(from as int, to as int);
    if from == to {
        return false;
    }
    let mut value: u64 = 0;
    let mut p = from;
    while p < to
        invariant
            from <= p <= to <= s@.len(),
            t == s@.subrange(from as int, to as int),
            forall|j: int| 0 <= j < p - from ==> is_digit(#[trigger] t[j]),
            value as int == digits_value(t.subrange(0, p - from)),
            value <= u32::MAX,
        decreases to - p,
    {
        let c = s[p];
        if !('0' <= c && c <= '9') {
            assert(!is_digit(t[p - from]));
            return false;
        }
        proof {
            lemma_digits_value_step(t, p - from);
        }
        value = value * 10 + (c as u64 - '0' as u64);
        if value > 4294967295u64 {
            proof {
                if forall|j: int| 0 <= j < t.len() ==> is_digit(#[trigger] t[j]) {
                    lemma_digits_value_grows(t, p - from + 1);
                }
            }
            return false;
        }
        p += 1;
    }
    assert(t.subrange(0, p - from) =~= t);
    true
}

/// Replaces the index that follows the first `" hwmon "` marker of `line`
/// with `mon`, when `mon` is given and the token after the marker (past any
/// further spaces, up to the next space or the end) reads as an index.
/// Every other character is kept as it was.
pub fn replace_hwmon_path(line: String, mon: Option<i32>) -> (r: String)
    ensures
        r@ == patched(line@, index_of(mon)),
{
    let m = match mon {
        None => {
            return line;
        },
        Some(m) => m,
    };
    let cs = chars_of(line.as_str());
    let n = cs.len();
    let mk: Vec<char> = vec![' ', 'h', 'w', 'm', 'o', 'n', ' '];
    assert(mk@ =~= marker());
    let i = match find(&cs, &mk) {
        None => {
            return line;
        },
        Some(i) => i,
    };
    proof {
        lemma_first_occurrence_from(cs@, mk@, 0);
        assert(mk@.len() == 7);
    }
    let b = skip_spaces_from(&cs, i + mk.len());
    let e = token_end_from(&cs, b);
    if !is_index_token_at(&cs, b, e) {
        return line;
    }
    let mut r = String::from_str(line.as_str().substring_char(0, b));
    push_decimal(&mut r, m);
    r.append(line.as_str().substring_char(e, n));
    r
}

/// Each digit character is a digit, of the value it stands at.
proof fn lemma_digit_char(d: int)
    requires
        0 <= d < 10,
    ensures
        is_digit(digit_chars()[d]),
        digit_value(digit_chars()[d]) == d,
{
}

/// The decimal notation of `n` is a non-empty run of digits that denotes `n`.
pub proof fn lemma_decimal_nat(n: nat)
    ensures
        decimal_nat(n).len() > 0,
        forall|k: int| 0 <= k < decimal_nat(n).len() ==> is_digit(#[trigger] decimal_nat(n)[k]),
        digits_value(decimal_nat(n)) == n,
    decreases n,
{
    let t = decimal_nat(n);
    lemma_digit_char((n % 10) as int);
    if n >= 10 {
        lemma_decimal_nat(n / 10);
        assert(t.drop_last() =~= decimal_nat(n / 10));
        assert(t.last() == digit_chars()[(n % 10) as int]);
        assert(digits_value(t) == digits_value(decimal_nat(n / 10)) * 10 + (n % 10));
        assert((n / 10) * 10 + n % 10 == n);
    } else {
        assert(t.drop_last() =~= Seq::<char>::empty());
        assert(digits_value(Seq::<char>::empty()) == 0);
    }
}

/// The decimal notation of an integer is non-empty and holds no space.
pub proof fn lemma_decimal(m: int)
    ensures
        decimal(m).len() > 0,
        forall|k: int| 0 <= k < decimal(m).len() ==> #[trigger] decimal(m)[k] != ' ',
        is_index_token(decimal(m)) <==> 0 <= m <= u32::MAX,
{
    if m < 0 {
        lemma_decimal_nat((-m) as nat);
        assert(!is_digit(decimal(m)[0]));
        assert forall|k: int| 0 <= k < decimal(m).len() implies #[trigger] decimal(m)[k] != ' ' by {
            if k > 0 {
                assert(decimal(m)[k] == decimal_nat((-m) as nat)[k - 1]);
            }
        }
    } else {
        lemma_decimal_nat(m as nat);
    }
}

/// Without a replacement index the patcher returns the line unchanged.
pub proof fn law_patch_without_index(line: Seq<char>)
    ensures
        patched(line, None) == line,
{
}

/// The marker is never altered: the first `" hwmon "` of a line stands at
/// the same place in the patched line, and all that precedes it as well.
pub proof fn law_marker_kept(line: Seq<char>, mon: Option<int>)
    ensures
        first_occurrence(line, marker()) matches Some(i) ==> {
            &&& i + marker().len() <= patched(line, mon).len()
            &&& patched(line, mon).subrange(0, i + marker().len()) == line.subrange(
                0,
                i + marker().len(),
            )
            &&& patched(line, mon).subrange(i, i + marker().len()) == marker()
        },
{
    lemma_first_occurrence_from(line, marker(), 0);
    if let Some(i) = first_occurrence(line, marker()) {
        let b = skip_spaces(line, i + 7);
        lemma_skip_spaces(line, i + 7);
        let p = patched(line, mon);
        if p != line {
            assert(p.subrange(0, i + 7) =~= line.subrange(0, i + 7));
            assert(p.subrange(i, i + 7) =~= line.subrange(i, i + 7));
        }
    }
}

/// A token after the marker that does not read as an index leaves the line
/// as it is.
pub proof fn law_non_index_token_kept(line: Seq<char>, mon: Option<int>)
    ensures
        first_occurrence(line, marker()) matches Some(i) && !is_index_token(
            line.subrange(
                skip_spaces(line, i + marker().len()),
                token_end(line, skip_spaces(line, i + marker().len())),
            ),
        ) ==> patched(line, mon) == line,
{
}

/// Patching twice with the same index gives what patching once gives.
pub proof fn law_patch_idempotent(line: Seq<char>, index: Option<i32>)
    ensures
        patched(patched(line, index_of(index)), index_of(index)) == patched(line, index_of(index)),
{
    let mon = index_of(index);
    let p = patched(line, mon);
    if p != line {
        let m = mon->0;
        lemma_first_occurrence_from(line, marker(), 0);
        let i = first_occurrence(line, marker())->0;
        lemma_skip_spaces(line, i + 7);
        let b = skip_spaces(line, i + 7);
        lemma_token_end(line, b);
        let e = token_end(line, b);
        let d = decimal(m);
        lemma_decimal(m);
        assert(p == line.subrange(0, b) + d + line.subrange(e, line.len() as int));
        let e2 = b + d.len();
        assert(p.subrange(0, b) =~= line.subrange(0, b));
        lemma_first_occurrence_prefix(line, p, marker(), b, 0);
        assert forall|j: int| i + 7 <= j < b implies p[j] == ' ' by {
            assert(p[j] == line[j]);
        }
        assert(p[b] == d[0]);
        lemma_skip_spaces_at(p, i + 7, b);
        assert forall|j: int| b <= j < e2 implies p[j] != ' ' by {
            assert(p[j] == d[j - b]);
        }
        if e2 < p.len() {
            assert(p[e2] == line[e]);
        }
        lemma_token_end_at(p, b, e2);
        assert(p.subrange(b, e2) =~= d);
        assert(p.subrange(0, b) + d + p.subrange(e2, p.len() as int) =~= p);
    }
}

} // verus!
