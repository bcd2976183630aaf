//! Parsing of wide (UTF-16 code unit) numeric text into signed integers.
//!
//! The module mirrors the classic C trio: per-character classification,
//! `strtol`-style accumulation under an explicit base, and `atol`/`atoi`
//! base auto-detection.  All behaviour is pinned down by the spec
//! functions `strtol_spec`, `atol_spec` and `atoi_spec`.

use vstd::arithmetic::power::pow;
use vstd::prelude::*;

verus! {

/// One UTF-16 code unit.
pub type Wchar = u16;

/// Code unit of `'\0'`.
pub const CH_NUL: u16 = 0;

/// Code unit of `'-'`.
pub const CH_MINUS: u16 = 45;

/// Code unit of `'0'`.
pub const CH_ZERO: u16 = 48;

/// Code unit of `'7'`.
pub const CH_SEVEN: u16 = 55;

/// Code unit of `'9'`.
pub const CH_NINE: u16 = 57;

/// Code unit of `'A'`.
pub const CH_UPPER_A: u16 = 65;

/// Code unit of `'F'`.
pub const CH_UPPER_F: u16 = 70;

/// Code unit of `'a'`.
pub const CH_LOWER_A: u16 = 97;

/// Code unit of `'f'`.
pub const CH_LOWER_F: u16 = 102;

/// Code unit of `'x'`.
pub const CH_LOWER_X: u16 = 120;

/// Failure modes of the numeric conversions.
#[derive(Debug, PartialEq, Eq)]
pub enum ToIntErr {
    /// The input sequence had zero length (a logical null).
    FoundNullPtr,
    /// The content began with a terminator code unit.
    EndOfStr,
    /// No valid digit immediately followed the optional sign.
    InvalidStart,
    /// A code unit that is no digit of the base appeared mid-number.
    InvalidInput,
    /// The accumulated magnitude exceeded `i64::MAX`.
    Overflow,
    /// The value does not fit in the signed 32-bit narrowing target.
    LargerThanI32,
}

/// Largest code unit that counts as a plain digit for `base`.
///
/// Bases below ten admit only their own digits; bases of ten and above
/// treat `'0'..'9'` uniformly as digits (letter digits are classified
/// separately).
pub open spec fn digit_limit(base: u16) -> int {
    if base < 10 {
        CH_ZERO + base - 1
    } else {
        CH_NINE as int
    }
}

/// The code unit is a plain digit of `base`.
pub open spec fn wide_is_digit(c: Wchar, base: u16) -> bool {
    CH_ZERO <= c && c <= digit_limit(base)
}

/// The code unit is an upper-case hex letter digit (`base` must be 16).
pub open spec fn wide_is_hex_upper(c: Wchar, base: u16) -> bool {
    base == 16 && CH_UPPER_A <= c <= CH_UPPER_F
}

/// The code unit is a lower-case hex letter digit (`base` must be 16).
pub open spec fn wide_is_hex_lower(c: Wchar, base: u16) -> bool {
    base == 16 && CH_LOWER_A <= c <= CH_LOWER_F
}

/// The code unit is some digit of `base`.
pub open spec fn wide_is_numchar(c: Wchar, base: u16) -> bool {
    wide_is_digit(c, base) || wide_is_hex_upper(c, base) || wide_is_hex_lower(c, base)
}

/// Numeric weight of a digit code unit, classified in the same priority
/// order as the accumulator: plain digit, then upper hex, then lower hex.
pub open spec fn wide_digit_val(c: Wchar, base: u16) -> int {
    if wide_is_digit(c, base) {
        c - CH_ZERO
    } else if wide_is_hex_upper(c, base) {
        c - CH_UPPER_A + 10
    } else if wide_is_hex_lower(c, base) {
        c - CH_LOWER_A + 10
    } else {
        0
    }
}

/// No valid digit of `base` stands at `offset`: the position is past the
/// end, or the code unit lies outside the digit alphabet of the base.
pub open spec fn end_of_num_at(s: Seq<Wchar>, offset: int, base: u16) -> bool {
    ||| offset >= s.len()
    ||| s[offset] < CH_ZERO
    ||| (base < 10 && s[offset] >= CH_ZERO + base)
    ||| (base >= 10 && ((s[offset] > CH_NINE && s[offset] < CH_UPPER_A) || (s[offset]
        > CH_UPPER_F && s[offset] < CH_LOWER_A) || s[offset] > CH_LOWER_F))
}

/// Rejects unusable input before any numeric scan: a zero-length sequence
/// is a logical null, and content that begins with a terminator is empty.
pub fn str_null_checks(s: &[u16]) -> (r: Result<(), ToIntErr>)
    ensures
        s@.len() == 0 ==> r == Err::<(), ToIntErr>(ToIntErr::FoundNullPtr),
        s@.len() > 0 && s@[0] == CH_NUL ==> r == Err::<(), ToIntErr>(ToIntErr::EndOfStr),
        s@.len() > 0 && s@[0] != CH_NUL ==> r == Ok::<(), ToIntErr>(()),
{
    if s.is_empty() {
        Err(ToIntErr::FoundNullPtr)
    } else if s[0] == CH_NUL {
        Err(ToIntErr::EndOfStr)
    } else {
        Ok(())
    }
}

/// Answers whether the scan has run past the digits of `base` at `offset`.
pub fn is_end_of_num(s: &[Wchar], offset: usize, base: u16) -> (r: bool)
    requires
        2 <= base <= 36,
    ensures
        r == end_of_num_at(s@, offset as int, base),
{
    offset >= s.len() || s[offset] < CH_ZERO || (base < 10 && s[offset] >= base + CH_ZERO) || (base
        >= 10 && ((s[offset] > CH_NINE && s[offset] < CH_UPPER_A) || (s[offset] > CH_UPPER_F
        && s[offset] < CH_LOWER_A) || s[offset] > CH_LOWER_F))
}

/// Answers whether the code unit at `offset` is a plain digit of `base`.
pub fn is_digit(s: &[Wchar], offset: usize, base: u16) -> (r: bool)
    requires
        offset < s@.len(),
        2 <= base <= 36,
    ensures
        r == wide_is_digit(s@[offset as int], base),
{
    s[offset] >= CH_ZERO && s[offset] <= if base < 10 {
        base + CH_ZERO - 1
    } else {
        CH_NINE
    }
}

/// Answers whether the code unit at `offset` is a lower-case hex digit.
pub fn is_hex_lower(s: &[Wchar], offset: usize, base: u16) -> (r: bool)
    requires
        offset < s@.len(),
    ensures
        r == wide_is_hex_lower(s@[offset as int], base),
{
    base == 16 && s[offset] >= CH_LOWER_A && s[offset] <= CH_LOWER_F
}

/// Answers whether the code unit at `offset` is an upper-case hex digit.
pub fn is_hex_upper(s: &[Wchar], offset: usize, base: u16) -> (r: bool)
    requires
        offset < s@.len(),
    ensures
        r == wide_is_hex_upper(s@[offset as int], base),
{
    base == 16 && s[offset] >= CH_UPPER_A && s[offset] <= CH_UPPER_F
}

/// Sign of the sequence, read from code unit 0 alone: `(-1, 1)` when a
/// leading `'-'` is consumed, else `(1, 0)`.  No `'+'` is recognized, and
/// no check is made that a digit follows.
pub fn check_sign(s: &[u16]) -> (r: (i64, usize))
    requires
        s@.len() > 0,
    ensures
        s@[0] == CH_MINUS ==> r == (-1i64, 1usize),
        s@[0] != CH_MINUS ==> r == (1i64, 0usize),
{
    if s[0] == CH_MINUS {
        (-1, 1)
    } else {
        (1, 0)
    }
}

/// One step at a time, the value accumulated by the digit walk that starts
/// at position `i` with running total `acc`.  The walk stops at the first
/// terminator or at the sequence end; a non-digit fails with
/// `InvalidInput` at once, and a step whose total would exceed `i64::MAX`
/// fails with `Overflow`.
pub open spec fn accum_from(s: Seq<Wchar>, base: u16, i: int, acc: int) -> Result<int, ToIntErr>
    decreases s.len() - i,
{
    if i >= s.len() || s[i] == CH_NUL {
        Ok(acc)
    } else if !wide_is_numchar(s[i], base) {
        Err(ToIntErr::InvalidInput)
    } else if acc * base + wide_digit_val(s[i], base) > i64::MAX {
        Err(ToIntErr::Overflow)
    } else {
        accum_from(s, base, i + 1, acc * base + wide_digit_val(s[i], base))
    }
}

/// Index of the first code unit after the optional leading `'-'`.
pub open spec fn sign_offset(s: Seq<Wchar>) -> int {
    if s.len() > 0 && s[0] == CH_MINUS {
        1
    } else {
        0
    }
}

/// Sign carried by the optional leading `'-'`.
pub open spec fn sign_val(s: Seq<Wchar>) -> int {
    if s.len() > 0 && s[0] == CH_MINUS {
        -1
    } else {
        1
    }
}

/// Everything `strtol` returns, for every input.  Zero-length input and a
/// leading terminator are rejected up front; then the optional sign is
/// consumed; then a digit walk runs from there to the first embedded
/// terminator or the sequence end, and its total, with the sign applied,
/// is the result.
pub open spec fn strtol_spec(s: Seq<Wchar>, base: u16) -> Result<i64, ToIntErr> {
    if s.len() == 0 {
        Err(ToIntErr::FoundNullPtr)
    } else if s[0] == CH_NUL {
        Err(ToIntErr::EndOfStr)
    } else if end_of_num_at(s, sign_offset(s), base) {
        Err(ToIntErr::InvalidStart)
    } else {
        match accum_from(s, base, sign_offset(s), 0) {
            Ok(v) => Ok((sign_val(s) * v) as i64),
            Err(e) => Err(e),
        }
    }
}

/// The running total of a digit walk stays within `0 ..= i64::MAX`.
proof fn lemma_accum_ok_range(s: Seq<Wchar>, base: u16, i: int, acc: int)
    requires
        0 <= acc <= i64::MAX,
    ensures
        accum_from(s, base, i, acc) matches Ok(v) ==> 0 <= v <= i64::MAX,
    decreases s.len() - i,
{
    if i >= s.len() || s[i] == CH_NUL {
    } else if !wide_is_numchar(s[i], base) {
    } else if acc * base + wide_digit_val(s[i], base) > i64::MAX {
    } else {
        assert(acc * base >= 0) by (nonlinear_arith)
            requires
                acc >= 0,
                base >= 0,
        ;
        lemma_accum_ok_range(s, base, i + 1, acc * base + wide_digit_val(s[i], base));
    }
}

/// A successful parse never reaches `i64::MIN`: the magnitude is bounded
/// by `i64::MAX` before the sign is applied.
pub proof fn lemma_strtol_ok_range(s: Seq<Wchar>, base: u16)
    ensures
        strtol_spec(s, base) matches Ok(v) ==> -i64::MAX <= v <= i64::MAX,
{
    if s.len() > 0 && s[0] != CH_NUL && !end_of_num_at(s, sign_offset(s), base) {
        lemma_accum_ok_range(s, base, sign_offset(s), 0);
    }
}

/// Parses a wide sequence as a signed 64-bit integer under an explicit
/// base, stopping at the first embedded terminator.
pub fn strtol(s: &[Wchar], base: u16) -> (r: Result<i64, ToIntErr>)
    requires
        2 <= base <= 36,
    ensures
        r == strtol_spec(s@, base),
{
    match str_null_checks(s) {
        Err(e) => {
            return Err(e);
        },
        Ok(_) => {},
    }
    let (sign, offset) = check_sign(s);
    if is_end_of_num(s, offset, base) {
        return Err(ToIntErr::InvalidStart);
    }
    let mut val: i64 = 0;
    let mut i: usize = offset;
    while i < s.len() && s[i] != CH_NUL
        invariant
            2 <= base <= 36,
            s@.len() > 0,
            s@[0] != CH_NUL,
            !end_of_num_at(s@, sign_offset(s@), base),
            sign == sign_val(s@),
            offset == sign_offset(s@),
            offset <= i <= s@.len(),
            0 <= val <= i64::MAX,
            accum_from(s@, base, offset as int, 0) == accum_from(s@, base, i as int, val as int),
        decreases s@.len() - i,
    {
        let c = s[i];
        let d: u16;
        if is_digit(s, i, base) {
            d = c - CH_ZERO;
        } else if is_hex_upper(s, i, base) {
            d = c - CH_UPPER_A + 10;
        } else if is_hex_lower(s, i, base) {
            d = c - CH_LOWER_A + 10;
        } else {
            assert(accum_from(s@, base, i as int, val as int) == Err::<int, ToIntErr>(
                ToIntErr::InvalidInput,
            ));
            return Err(ToIntErr::InvalidInput);
        }
        assert(d == wide_digit_val(s@[i as int], base));
        let stepped: i64;
        match val.checked_mul(base as i64) {
            None => {
                assert(val * base > i64::MAX) by (nonlinear_arith)
                    requires
                        val >= 0,
                        base >= 2,
                        val * (base as i64) > i64::MAX || val * (base as i64) < i64::MIN,
                ;
                return Err(ToIntErr::Overflow);
            },
            Some(m) => {
                match m.checked_add(d as i64) {
                    None => {
                        return Err(ToIntErr::Overflow);
                    },
                    Some(nv) => {
                        stepped = nv;
                    },
                }
            },
        }
        val = stepped;
        i = i + 1;
    }
    assert(accum_from(s@, base, i as int, val as int) == Ok::<int, ToIntErr>(val as int));
    assert(strtol_spec(s@, base) == Ok::<i64, ToIntErr>((sign_val(s@) * (val as int)) as i64));
    if sign < 0 {
        assert(sign_val(s@) * (val as int) == -(val as int)) by (nonlinear_arith)
            requires
                sign_val(s@) == -1,
        ;
        Ok(-val)
    } else {
        assert(sign_val(s@) * (val as int) == val as int) by (nonlinear_arith)
            requires
                sign_val(s@) == 1,
        ;
        Ok(val)
    }
}

/// A `'0'` at `i` announces a hexadecimal number: the next code unit
/// exists and is `'x'`.
pub open spec fn hex_mark_at(s: Seq<Wchar>, i: int) -> bool {
    s[i] == CH_ZERO && i + 1 < s.len() && s[i + 1] == CH_LOWER_X
}

/// A `'0'` at `i` announces an octal number: the next code unit exists
/// and is an octal digit.
pub open spec fn oct_mark_at(s: Seq<Wchar>, i: int) -> bool {
    s[i] == CH_ZERO && i + 1 < s.len() && CH_ZERO <= s[i + 1] <= CH_SEVEN
}

/// A `'0'` at `i` announces a base override, hexadecimal or octal.
pub open spec fn base_mark_at(s: Seq<Wchar>, i: int) -> bool {
    hex_mark_at(s, i) || oct_mark_at(s, i)
}

/// Position of the first base mark at or after `i`, or the sequence
/// length when there is none.  The scan considers every position, not
/// only the first: an embedded mark deeper in the sequence triggers the
/// same override.
pub open spec fn first_base_mark(s: Seq<Wchar>, i: int) -> int
    decreases s.len() - i,
{
    if i >= s.len() {
        s.len() as int
    } else if base_mark_at(s, i) {
        i
    } else {
        first_base_mark(s, i + 1)
    }
}

/// Everything `atol` returns, for every input.  Input that is only a
/// sign leaves no digit to start a number, so it is rejected up front.
/// After the optional sign, the sequence is scanned for the first `0x`
/// (hexadecimal, delegated just past the `x`) or leading-octal mark
/// (octal, delegated from the `0` itself); with no mark the sequence is
/// decimal.  The delegated walk no longer sees the sign, which is
/// applied here.
pub open spec fn atol_spec(s: Seq<Wchar>) -> Result<i64, ToIntErr> {
    if s.len() == 0 {
        Err(ToIntErr::FoundNullPtr)
    } else if sign_offset(s) >= s.len() {
        Err(ToIntErr::InvalidStart)
    } else {
        let j = first_base_mark(s, sign_offset(s));
        let delegated = if j < s.len() && hex_mark_at(s, j) {
            strtol_spec(s.subrange(j + 2, s.len() as int), 16)
        } else if j < s.len() {
            strtol_spec(s.subrange(sign_offset(s), s.len() as int), 8)
        } else {
            strtol_spec(s.subrange(sign_offset(s), s.len() as int), 10)
        };
        match delegated {
            Ok(v) => Ok((sign_val(s) * v) as i64),
            Err(e) => Err(e),
        }
    }
}

/// Pins the first base mark down from a pointwise scan: none stands
/// before `i`, and `i` itself carries one or is the sequence end.
proof fn lemma_first_base_mark_is(s: Seq<Wchar>, lo: int, i: int)
    requires
        0 <= lo <= i <= s.len(),
        forall|j: int| lo <= j < i ==> !base_mark_at(s, j),
        i < s.len() ==> base_mark_at(s, i),
    ensures
        first_base_mark(s, lo) == i,
    decreases i - lo,
{
    if lo < i {
        lemma_first_base_mark_is(s, lo + 1, i);
    }
}

/// Applies the detected sign to a magnitude bounded away from
/// `i64::MIN`.
fn apply_sign(sign: i64, num: i64) -> (r: i64)
    requires
        sign == 1 || sign == -1,
        -i64::MAX <= num <= i64::MAX,
    ensures
        r == (sign * num) as i64,
{
    proof {
        if sign == -1 {
            assert(sign * num == -(num as int)) by (nonlinear_arith)
                requires
                    sign == -1,
            ;
        } else {
            assert(sign * num == num as int) by (nonlinear_arith)
                requires
                    sign == 1,
            ;
        }
    }
    if sign < 0 {
        -num
    } else {
        num
    }
}

/// Parses a wide sequence as a signed 64-bit integer, inferring the base
/// from a `0x` or leading-octal mark and falling back to decimal.  Input
/// that is only a sign fails with `InvalidStart`, distinguishable from
/// the `FoundNullPtr` of empty input.
pub fn atol(s: &[Wchar]) -> (r: Result<i64, ToIntErr>)
    ensures
        r == atol_spec(s@),
{
    if s.is_empty() {
        return Err(ToIntErr::FoundNullPtr);
    }
    let (sign, offset) = check_sign(s);
    if offset >= s.len() {
        return Err(ToIntErr::InvalidStart);
    }
    let mut i: usize = offset;
    while i < s.len()
        invariant
            s@.len() > 0,
            sign == sign_val(s@),
            offset == sign_offset(s@),
            offset <= i <= s@.len(),
            forall|j: int| offset <= j < i ==> !base_mark_at(s@, j),
        decreases s@.len() - i,
    {
        if s[i] == CH_ZERO && i + 1 < s.len() {
            let nxt = s[i + 1];
            if nxt == CH_LOWER_X {
                proof {
                    lemma_first_base_mark_is(s@, offset as int, i as int);
                }
                let sub = vstd::slice::slice_subrange(s, i + 2, s.len());
                match strtol(sub, 16) {
                    Ok(num) => {
                        proof {
                            lemma_strtol_ok_range(sub@, 16);
                        }
                        return Ok(apply_sign(sign, num));
                    },
                    Err(e) => {
                        return Err(e);
                    },
                }
            }
            if nxt >= CH_ZERO && nxt <= CH_SEVEN {
                proof {
                    lemma_first_base_mark_is(s@, offset as int, i as int);
                }
                let sub = vstd::slice::slice_subrange(s, offset, s.len());
                match strtol(sub, 8) {
                    Ok(num) => {
                        proof {
                            lemma_strtol_ok_range(sub@, 8);
                        }
                        return Ok(apply_sign(sign, num));
                    },
                    Err(e) => {
                        return Err(e);
                    },
                }
            }
        }
        i = i + 1;
    }
    proof {
        lemma_first_base_mark_is(s@, offset as int, s@.len() as int);
    }
    let sub = vstd::slice::slice_subrange(s, offset, s.len());
    match strtol(sub, 10) {
        Ok(num) => {
            proof {
                lemma_strtol_ok_range(sub@, 10);
            }
            Ok(apply_sign(sign, num))
        },
        Err(e) => Err(e),
    }
}

/// Everything `atoi` returns: the `atol` result, narrowed to 32 bits,
/// with values outside the `i32` range rejected.
pub open spec fn atoi_spec(s: Seq<Wchar>) -> Result<i32, ToIntErr> {
    match atol_spec(s) {
        Ok(v) => if i32::MIN <= v <= i32::MAX {
            Ok(v as i32)
        } else {
            Err(ToIntErr::LargerThanI32)
        },
        Err(e) => Err(e),
    }
}

/// Parses a wide sequence with inferred base and narrows the result to a
/// signed 32-bit integer.
pub fn atoi(s: &[Wchar]) -> (r: Result<i32, ToIntErr>)
    ensures
        r == atoi_spec(s@),
{
    match atol(s) {
        Ok(num) => {
            if num >= i32::MIN as i64 && num <= i32::MAX as i64 {
                Ok(num as i32)
            } else {
                Err(ToIntErr::LargerThanI32)
            }
        },
        Err(e) => Err(e),
    }
}

/// Positional value of a digit sequence under `base`: the mathematical
/// integer the digits denote.
pub open spec fn digits_val(ds: Seq<Wchar>, base: u16) -> int
    decreases ds.len(),
{
    if ds.len() == 0 {
        0
    } else {
        digits_val(ds.drop_last(), base) * base + wide_digit_val(ds.last(), base)
    }
}

/// A digit of the base weighs less than the base.
proof fn lemma_digit_val_bound(c: Wchar, base: u16)
    requires
        2 <= base <= 36,
        wide_is_numchar(c, base),
    ensures
        0 <= wide_digit_val(c, base) < base,
{
}

/// A sequence of `n` digits denotes a value in `0 .. base^n`.
proof fn lemma_digits_val_bounds(ds: Seq<Wchar>, base: u16)
    requires
        2 <= base <= 36,
        forall|j: int| 0 <= j < ds.len() ==> wide_is_numchar(ds[j], base),
    ensures
        0 <= digits_val(ds, base) < pow(base as int, ds.len() as nat),
    decreases ds.len(),
{
    reveal(pow);
    if ds.len() == 0 {
    } else {
        let prev = ds.drop_last();
        assert(forall|j: int| 0 <= j < prev.len() ==> prev[j] == ds[j]);
        lemma_digits_val_bounds(prev, base);
        lemma_digit_val_bound(ds.last(), base);
        let p = pow(base as int, prev.len() as nat);
        assert(pow(base as int, ds.len() as nat) == base * p);
        assert(0 <= digits_val(prev, base) * base + wide_digit_val(ds.last(), base) < base * p)
            by (nonlinear_arith)
            requires
                0 <= digits_val(prev, base) <= p - 1,
                0 <= wide_digit_val(ds.last(), base) <= base - 1,
                base >= 2,
        ;
    }
}

/// Splitting the leading digit off: it weighs `base` to the power of the
/// count of digits that follow it.
proof fn lemma_digits_val_first(ds: Seq<Wchar>, base: u16)
    requires
        ds.len() > 0,
    ensures
        digits_val(ds, base) == wide_digit_val(ds[0], base) * pow(
            base as int,
            (ds.len() - 1) as nat,
        ) + digits_val(ds.drop_first(), base),
    decreases ds.len(),
{
    reveal(pow);
    if ds.len() == 1 {
        assert(ds.drop_first().len() == 0);
        assert(ds.drop_last().len() == 0);
        assert(ds.last() == ds[0]);
        assert(digits_val(ds.drop_last(), base) == 0);
        assert(digits_val(ds, base) == 0 * base + wide_digit_val(ds[0], base));
        assert(wide_digit_val(ds[0], base) * pow(base as int, 0) == wide_digit_val(ds[0], base))
            by (nonlinear_arith)
            requires
                pow(base as int, 0) == 1,
        ;
    } else {
        let prev = ds.drop_last();
        assert(prev[0] == ds[0]);
        lemma_digits_val_first(prev, base);
        assert(prev.drop_first() =~= ds.drop_first().drop_last());
        let d0 = wide_digit_val(ds[0], base);
        let p2 = pow(base as int, (ds.len() - 2) as nat);
        let x = digits_val(prev.drop_first(), base);
        let dl = wide_digit_val(ds.last(), base);
        assert(digits_val(prev, base) == d0 * p2 + x);
        assert(digits_val(ds, base) == digits_val(prev, base) * base + dl);
        assert(pow(base as int, (ds.len() - 1) as nat) == base * p2);
        assert(ds.drop_first().last() == ds.last());
        assert(ds.drop_first().len() == ds.len() - 1);
        assert(digits_val(ds.drop_first(), base) == x * base + dl);
        assert((d0 * p2 + x) * base + dl == d0 * (base * p2) + (x * base + dl))
            by (nonlinear_arith);
    }
}

/// The digit walk computes exactly the positional value of the remaining
/// digits, weighted under the already accumulated total — or reports
/// `Overflow` exactly when that value exceeds `i64::MAX`.
proof fn lemma_accum_total(s: Seq<Wchar>, base: u16, i: int, acc: int)
    requires
        2 <= base <= 36,
        0 <= i <= s.len(),
        0 <= acc <= i64::MAX,
        forall|j: int| i <= j < s.len() ==> wide_is_numchar(s[j], base),
    ensures
        ({
            let total = acc * pow(base as int, (s.len() - i) as nat) + digits_val(
                s.subrange(i, s.len() as int),
                base,
            );
            accum_from(s, base, i, acc) == if total <= i64::MAX {
                Ok::<int, ToIntErr>(total)
            } else {
                Err::<int, ToIntErr>(ToIntErr::Overflow)
            }
        }),
    decreases s.len() - i,
{
    reveal(pow);
    let n = s.len() as int;
    let sub = s.subrange(i, n);
    if i >= n {
        assert(sub.len() == 0);
        assert(acc * pow(base as int, 0) == acc) by (nonlinear_arith)
            requires
                pow(base as int, 0) == 1,
        ;
    } else {
        let c = s[i];
        assert(wide_is_numchar(c, base));
        let d = wide_digit_val(c, base);
        lemma_digit_val_bound(c, base);
        let acc2 = acc * base + d;
        let k1 = (n - i - 1) as nat;
        let p1 = pow(base as int, k1);
        let sub2 = s.subrange(i + 1, n);
        lemma_digits_val_first(sub, base);
        assert(sub.drop_first() =~= sub2);
        assert(forall|j: int| 0 <= j < sub2.len() ==> wide_is_numchar(sub2[j], base));
        lemma_digits_val_bounds(sub2, base);
        vstd::arithmetic::power::lemma_pow_positive(base as int, k1);
        assert(pow(base as int, (n - i) as nat) == base * p1);
        let total = acc * (base * p1) + (d * p1 + digits_val(sub2, base));
        assert(total == acc2 * p1 + digits_val(sub2, base)) by (nonlinear_arith)
            requires
                acc2 == acc * base + d,
                total == acc * (base * p1) + (d * p1 + digits_val(sub2, base)),
        ;
        if acc2 > i64::MAX {
            assert(acc2 * p1 >= acc2) by (nonlinear_arith)
                requires
                    p1 >= 1,
                    acc2 >= 0,
            ;
            assert(total > i64::MAX);
        } else {
            assert(acc2 >= 0) by (nonlinear_arith)
                requires
                    acc >= 0,
                    base >= 2,
                    d >= 0,
                    acc2 == acc * base + d,
            ;
            lemma_accum_total(s, base, i + 1, acc2);
        }
    }
}

/// A sequence that is an optional leading `'-'` followed only by digits
/// of the base parses to exactly the signed positional value of those
/// digits, whenever that value fits the accumulator.  In particular a
/// decimal digit sequence yields its mathematical value, and hex letter
/// digits of either case contribute their decimal-weighted equivalent.
pub proof fn lemma_strtol_exact(s: Seq<Wchar>, base: u16)
    requires
        2 <= base <= 36,
        sign_offset(s) < s.len(),
        forall|j: int| sign_offset(s) <= j < s.len() ==> wide_is_numchar(s[j], base),
        digits_val(s.subrange(sign_offset(s), s.len() as int), base) <= i64::MAX,
    ensures
        strtol_spec(s, base) == Ok::<i64, ToIntErr>(
            (sign_val(s) * digits_val(s.subrange(sign_offset(s), s.len() as int), base)) as i64,
        ),
{
    reveal(pow);
    let off = sign_offset(s);
    let v = digits_val(s.subrange(off, s.len() as int), base);
    assert(wide_is_numchar(s[off], base));
    assert(!end_of_num_at(s, off, base));
    lemma_accum_total(s, base, off, 0);
    assert(0 * pow(base as int, (s.len() - off) as nat) == 0) by (nonlinear_arith);
    lemma_digits_val_bounds(s.subrange(off, s.len() as int), base);
    assert(accum_from(s, base, off, 0) == Ok::<int, ToIntErr>(v));
}

/// Folds a lower-case hex letter digit to its upper-case twin and leaves
/// every other code unit alone.
pub open spec fn upper_hex(c: Wchar) -> Wchar {
    if CH_LOWER_A <= c <= CH_LOWER_F {
        (c - 32) as Wchar
    } else {
        c
    }
}

/// The digit walk cannot tell the two letter cases apart.
proof fn lemma_accum_hex_case(s: Seq<Wchar>, t: Seq<Wchar>, i: int, acc: int)
    requires
        0 <= i,
        t.len() == s.len(),
        forall|j: int| 0 <= j < s.len() ==> t[j] == upper_hex(s[j]),
    ensures
        accum_from(t, 16, i, acc) == accum_from(s, 16, i, acc),
    decreases s.len() - i,
{
    if i >= s.len() {
    } else {
        assert(t[i] == upper_hex(s[i]));
        lemma_accum_hex_case(s, t, i + 1, acc * 16 + wide_digit_val(s[i], 16));
    }
}

/// Letter case carries no meaning in a base-16 parse: folding every
/// lower-case hex digit to upper case leaves the result unchanged.
pub proof fn lemma_strtol_hex_case(s: Seq<Wchar>)
    ensures
        strtol_spec(s.map_values(|c: Wchar| upper_hex(c)), 16) == strtol_spec(s, 16),
{
    let t = s.map_values(|c: Wchar| upper_hex(c));
    assert(forall|j: int| 0 <= j < s.len() ==> t[j] == upper_hex(s[j]));
    if s.len() > 0 {
        assert(t[0] == upper_hex(s[0]));
        assert(sign_offset(t) == sign_offset(s));
        let off = sign_offset(s);
        if off < s.len() {
            assert(t[off] == upper_hex(s[off]));
        }
        assert(end_of_num_at(t, off, 16) == end_of_num_at(s, off, 16));
        lemma_accum_hex_case(s, t, off, 0);
    }
}

/// The digit walk stops at the appended terminator exactly where it would
/// have stopped at the sequence end.
proof fn lemma_accum_push_nul(s: Seq<Wchar>, base: u16, i: int, acc: int)
    requires
        0 <= i,
    ensures
        accum_from(s.push(CH_NUL), base, i, acc) == accum_from(s, base, i, acc),
    decreases s.len() - i,
{
    let t = s.push(CH_NUL);
    if i >= s.len() {
        if i == s.len() {
            assert(t[i] == CH_NUL);
        }
    } else {
        assert(t[i] == s[i]);
        lemma_accum_push_nul(s, base, i + 1, acc * base + wide_digit_val(s[i], base));
    }
}

/// A trailing terminator is never required: parsing a length-bounded
/// sequence behaves identically to parsing the same sequence with a
/// terminator appended.
pub proof fn lemma_strtol_trailing_nul(s: Seq<Wchar>, base: u16)
    requires
        s.len() > 0,
    ensures
        strtol_spec(s.push(CH_NUL), base) == strtol_spec(s, base),
{
    let t = s.push(CH_NUL);
    assert(t[0] == s[0]);
    let off = sign_offset(s);
    assert(sign_offset(t) == off);
    if off < s.len() {
        assert(t[off] == s[off]);
    } else {
        assert(t[off] == CH_NUL);
    }
    assert(end_of_num_at(t, off, base) == end_of_num_at(s, off, base));
    lemma_accum_push_nul(s, base, off, 0);
}

/// A `0x` immediately after the optional sign, followed only by hex
/// digits, parses as hexadecimal: the signed positional value of the
/// digits past the `x`.
pub proof fn lemma_atol_hex_prefix(s: Seq<Wchar>)
    requires
        sign_offset(s) + 2 < s.len(),
        s[sign_offset(s)] == CH_ZERO,
        s[sign_offset(s) + 1] == CH_LOWER_X,
        forall|j: int| sign_offset(s) + 2 <= j < s.len() ==> wide_is_numchar(s[j], 16),
        digits_val(s.subrange(sign_offset(s) + 2, s.len() as int), 16) <= i64::MAX,
    ensures
        atol_spec(s) == Ok::<i64, ToIntErr>(
            (sign_val(s) * digits_val(s.subrange(sign_offset(s) + 2, s.len() as int), 16)) as i64,
        ),
{
    let off = sign_offset(s);
    let n = s.len() as int;
    assert(hex_mark_at(s, off));
    lemma_first_base_mark_is(s, off, off);
    let t = s.subrange(off + 2, n);
    assert(wide_is_numchar(t[0], 16));
    assert(sign_offset(t) == 0);
    assert(t.subrange(0, t.len() as int) =~= t);
    lemma_strtol_exact(t, 16);
    let v = digits_val(t, 16);
    assert(sign_val(t) * v == v) by (nonlinear_arith)
        requires
            sign_val(t) == 1,
    ;
    lemma_digits_val_bounds(t, 16);
}

/// A `0` immediately after the optional sign, followed only by octal
/// digits, parses as octal: the signed positional value of the digits,
/// the leading `0` re-scanned among them.
pub proof fn lemma_atol_octal_prefix(s: Seq<Wchar>)
    requires
        sign_offset(s) + 1 < s.len(),
        s[sign_offset(s)] == CH_ZERO,
        forall|j: int| sign_offset(s) <= j < s.len() ==> CH_ZERO <= #[trigger] s[j] <= CH_SEVEN,
        digits_val(s.subrange(sign_offset(s), s.len() as int), 8) <= i64::MAX,
    ensures
        atol_spec(s) == Ok::<i64, ToIntErr>(
            (sign_val(s) * digits_val(s.subrange(sign_offset(s), s.len() as int), 8)) as i64,
        ),
{
    let off = sign_offset(s);
    let n = s.len() as int;
    assert(CH_ZERO <= s[off + 1] <= CH_SEVEN);
    assert(oct_mark_at(s, off));
    assert(!hex_mark_at(s, off));
    lemma_first_base_mark_is(s, off, off);
    let t = s.subrange(off, n);
    assert(forall|j: int| 0 <= j < t.len() ==> CH_ZERO <= #[trigger] t[j] <= CH_SEVEN);
    assert(forall|j: int| 0 <= j < t.len() ==> wide_is_numchar(t[j], 8));
    assert(sign_offset(t) == 0);
    assert(t.subrange(0, t.len() as int) =~= t);
    lemma_strtol_exact(t, 8);
    let v = digits_val(t, 8);
    assert(sign_val(t) * v == v) by (nonlinear_arith)
        requires
            sign_val(t) == 1,
    ;
    lemma_digits_val_bounds(t, 8);
}

/// With no base mark anywhere after the sign, the sequence parses as
/// plain decimal: the signed positional value of its digits.
pub proof fn lemma_atol_decimal(s: Seq<Wchar>)
    requires
        sign_offset(s) < s.len(),
        forall|j: int| sign_offset(s) <= j < s.len() ==> wide_is_digit(s[j], 10),
        forall|j: int| sign_offset(s) <= j < s.len() ==> !base_mark_at(s, j),
        digits_val(s.subrange(sign_offset(s), s.len() as int), 10) <= i64::MAX,
    ensures
        atol_spec(s) == Ok::<i64, ToIntErr>(
            (sign_val(s) * digits_val(s.subrange(sign_offset(s), s.len() as int), 10)) as i64,
        ),
{
    let off = sign_offset(s);
    let n = s.len() as int;
    lemma_first_base_mark_is(s, off, n);
    let t = s.subrange(off, n);
    assert(forall|j: int| 0 <= j < t.len() ==> wide_is_digit(t[j], 10));
    assert(forall|j: int| 0 <= j < t.len() ==> wide_is_numchar(t[j], 10));
    assert(wide_is_digit(t[0], 10));
    assert(sign_offset(t) == 0);
    assert(t.subrange(0, t.len() as int) =~= t);
    lemma_strtol_exact(t, 10);
    let v = digits_val(t, 10);
    assert(sign_val(t) * v == v) by (nonlinear_arith)
        requires
            sign_val(t) == 1,
    ;
    lemma_digits_val_bounds(t, 10);
}

/// Decimal digit string of a non-negative value, most significant digit
/// first.
pub open spec fn dec_digits(n: int) -> Seq<Wchar>
    decreases n,
{
    if n <= 9 {
        seq![(CH_ZERO + n) as Wchar]
    } else {
        dec_digits(n / 10).push((CH_ZERO + n % 10) as Wchar)
    }
}

/// Decimal string of a value: its digits, with a leading `'-'` when the
/// value is negative.
pub open spec fn dec_repr(n: int) -> Seq<Wchar> {
    if n < 0 {
        seq![CH_MINUS] + dec_digits(-n)
    } else {
        dec_digits(n)
    }
}

/// The decimal digit string is non-empty, holds decimal digits only, and
/// denotes the value it was built from.
proof fn lemma_dec_digits_facts(n: int)
    requires
        0 <= n,
    ensures
        dec_digits(n).len() >= 1,
        forall|j: int| 0 <= j < dec_digits(n).len() ==> CH_ZERO <= #[trigger] dec_digits(n)[j]
            <= CH_NINE,
        digits_val(dec_digits(n), 10) == n,
    decreases n,
{
    if n <= 9 {
        let c = (CH_ZERO + n) as Wchar;
        let ds = dec_digits(n);
        assert(ds == seq![c]);
        assert(ds.drop_last() =~= Seq::<Wchar>::empty());
        assert(ds.last() == c);
        assert(wide_is_digit(c, 10));
        assert(digits_val(ds, 10) == digits_val(ds.drop_last(), 10) * 10 + wide_digit_val(c, 10));
    } else {
        lemma_dec_digits_facts(n / 10);
        let prev = dec_digits(n / 10);
        let c = (CH_ZERO + n % 10) as Wchar;
        let ds = dec_digits(n);
        assert(ds == prev.push(c));
        assert(ds.drop_last() =~= prev);
        assert(ds.last() == c);
        assert(wide_is_digit(c, 10));
        assert(digits_val(ds, 10) == (n / 10) * 10 + n % 10);
        assert(forall|j: int| 0 <= j < ds.len() ==> CH_ZERO <= #[trigger] ds[j] <= CH_NINE);
    }
}

/// Re-parsing the decimal string of any value a successful parse can
/// return yields that value back.
pub proof fn lemma_strtol_reparse(n: i64)
    requires
        n > i64::MIN,
    ensures
        strtol_spec(dec_repr(n as int), 10) == Ok::<i64, ToIntErr>(n),
{
    if n >= 0 {
        lemma_dec_digits_facts(n as int);
        let s = dec_repr(n as int);
        assert(s == dec_digits(n as int));
        assert(CH_ZERO <= s[0] <= CH_NINE);
        assert(sign_offset(s) == 0);
        assert(s.subrange(0, s.len() as int) =~= s);
        assert(forall|j: int| 0 <= j < s.len() ==> wide_is_numchar(s[j], 10));
        lemma_strtol_exact(s, 10);
        assert(sign_val(s) * (n as int) == n) by (nonlinear_arith)
            requires
                sign_val(s) == 1,
        ;
    } else {
        let m = -(n as int);
        lemma_dec_digits_facts(m);
        let s = dec_repr(n as int);
        assert(s == seq![CH_MINUS] + dec_digits(m));
        assert(s[0] == CH_MINUS);
        assert(s.len() == 1 + dec_digits(m).len());
        assert(sign_offset(s) == 1);
        let sub = s.subrange(1, s.len() as int);
        assert(sub =~= dec_digits(m));
        assert(forall|j: int| 1 <= j < s.len() ==> s[j] == dec_digits(m)[j - 1]);
        assert(forall|j: int| 1 <= j < s.len() ==> wide_is_numchar(s[j], 10));
        lemma_strtol_exact(s, 10);
        assert(sign_val(s) * m == n) by (nonlinear_arith)
            requires
                sign_val(s) == -1,
                m == -(n as int),
        ;
    }
}

} // verus!
