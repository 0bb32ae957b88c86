//! How a reduction lays its rows over the device: a row per thread or a row per workgroup.
use crate::text::{const_line, push_const};
use vstd::prelude::*;

verus! {

pub const THREAD_ROW: u32 = 0;
pub const WORKGROUP_ROW: u32 = 1;

/// The device declarations of the strategies.
pub open spec fn strategy_text() -> Seq<char> {
    const_line("THREAD_ROW"@, 0) + const_line("WORKGROUP_ROW"@, 1)
}

/// The device declarations of the strategies, one `const` per line.
pub fn declarations() -> (r: String)
    ensures
        r@ == strategy_text(),
{
    let mut out = String::new();
    push_const(&mut out, "THREAD_ROW", THREAD_ROW as u64);
    push_const(&mut out, "WORKGROUP_ROW", WORKGROUP_ROW as u64);
    proof {
        assert(out@ =~= strategy_text());
    }
    out
}

} // verus!
