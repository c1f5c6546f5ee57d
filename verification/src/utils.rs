//! Small helpers: durations in words, and the memory that a frame needs.

use vstd::layout::size_of;
use vstd::prelude::*;
use vstd::string::StringExecFns;

verus! {

/// The character of a decimal digit.
pub open spec fn digit_char(d: nat) -> char {
    ((48 + d) as u8) as char
}

/// A number in decimal: most significant digit first, no sign, no leading
/// zero, and `0` for zero.
pub open spec fn decimal(n: nat) -> Seq<char>
    decreases n,
{
    if n < 10 {
        seq![digit_char(n)]
    } else {
        decimal(n / 10).push(digit_char(n % 10))
    }
}

/// A part of a duration: the number and its unit, or nothing where the
/// number is zero.
pub open spec fn time_part(n: nat, unit: Seq<char>) -> Seq<char> {
    if n > 0 {
        decimal(n) + unit
    } else {
        Seq::<char>::empty()
    }
}

/// A duration of `miliseconds` in words: whole minutes, then the seconds
/// beyond them, then the milliseconds beyond those, each with its unit and
/// each left out where it is zero.
pub open spec fn time_text(miliseconds: nat) -> Seq<char> {
    time_part(miliseconds / 1000 / 60, " min "@) + time_part(miliseconds / 1000 % 60, " s "@)
        + time_part(miliseconds % 1000, " ms"@)
}

/// `u128::to_string`: the number written in decimal, most significant digit
/// first, without sign or leading zeros.
#[verifier::external_body]
fn decimal_string(n: u128) -> (ret: String)
    ensures
        ret@ == decimal(n as nat),
{
    n.to_string()
}

/// Writes a duration given in milliseconds as minutes, seconds and
/// milliseconds, such as `2 min 5 s 30 ms`. Parts that are zero are left out,
/// so a duration of zero gives the empty string.
pub fn format_time(miliseconds: u128) -> (ret: String)
    ensures
        ret@ == time_text(miliseconds as nat),
{
    let in_miliseconds: u128 = miliseconds;
    let miliseconds: u128 = miliseconds % 1000;
    let in_seconds: u128 = in_miliseconds / 1000;
    let seconds: u128 = in_seconds % 60;
    let minutes: u128 = in_seconds / 60;
    let mut time_str = String::new();
    if minutes > 0 {
        time_str.append(decimal_string(minutes).as_str());
        time_str.append(" min ");
    }
    if seconds > 0 {
        time_str.append(decimal_string(seconds).as_str());
        time_str.append(" s ");
    }
    if miliseconds > 0 {
        time_str.append(decimal_string(miliseconds).as_str());
        time_str.append(" ms");
    }
    assert(time_str@ =~= time_text(in_miliseconds as nat));
    time_str
}

/// Bytes that `total_elements` values of `StoredType` take side by side.
pub fn calc_array_total_size<StoredType>(total_elements: u64) -> (ret: u64)
    requires
        size_of::<StoredType>() * total_elements <= u64::MAX,
    ensures
        ret == size_of::<StoredType>() * total_elements,
{
    let each: usize = std::mem::size_of::<StoredType>();
    if total_elements == 0 {
        assert(size_of::<StoredType>() * 0 == 0);
        return 0;
    }
    assert(each <= each * total_elements) by (nonlinear_arith)
        requires
            total_elements >= 1,
            each >= 0,
    ;
    each as u64 * total_elements
}

/// Bytes that a frame of `total_elements` values of `StoredType` needs while
/// it is rendered: twice the values themselves.
pub fn calc_ram_req<StoredType>(total_elements: u64) -> (ret: u64)
    requires
        2 * (size_of::<StoredType>() * total_elements) <= u64::MAX,
    ensures
        ret == 2 * (size_of::<StoredType>() * total_elements),
{
    2 * calc_array_total_size::<StoredType>(total_elements)
}

} // verus!
