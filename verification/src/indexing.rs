use vstd::prelude::*;

verus! {

/// The position in a sequence of `length` items that `idx` names: counted from the front when
/// `idx` is not negative, from the back when it is (`-1` names the last item); none when the
/// sequence has no such item.
pub open spec fn position_named(idx: int, length: int) -> Option<int> {
    if idx < 0 {
        if -idx > length {
            None
        } else {
            Some(length + idx)
        }
    } else if idx >= length {
        None
    } else {
        Some(idx)
    }
}

/// The position that `idx` names in a list or string of `length` items, if any.
pub fn check_index(idx: i32, length: usize) -> (r: Option<usize>)
    ensures
        r is Some <==> position_named(idx as int, length as int) is Some,
        r matches Some(n) ==> position_named(idx as int, length as int) == Some(n as int),
{
    if idx < 0 {
        let back: u64 = (-(idx as i64)) as u64;
        if back > length as u64 {
            None
        } else {
            Some(length - back as usize)
        }
    } else if idx as usize >= length {
        None
    } else {
        Some(idx as usize)
    }
}

} // verus!
