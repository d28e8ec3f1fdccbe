//! Small pieces of terminal output.

use vstd::prelude::*;
use vstd::string::*;

use crate::config::{POOL_SIZE, POOL_START_VALUE};
use crate::net;

verus! {

/// The escape sequence that switches the colour.
pub open spec fn ansi_code(code: Seq<char>) -> Seq<char> {
    "\x1b["@ + code + "m"@
}

/// The escape sequence that switches the colour.
pub fn ansi(code: &str) -> (r: String)
    ensures
        r@ == ansi_code(code@),
{
    let mut s: String = "\x1b[".to_owned();
    s.append(code);
    s.append("m");
    s
}

/// `n` times the character `c`.
pub open spec fn repeated(c: char, n: nat) -> Seq<char> {
    Seq::new(n, |i: int| c)
}

/// Width of a progress bar: two cells at least.
pub open spec fn bar_width(width: usize) -> nat {
    if width < 2 {
        2
    } else {
        width as nat
    }
}

/// A progress bar with `filled` cells filled.
pub open spec fn bar(filled: nat, width: usize) -> Seq<char> {
    "["@ + repeated('#', filled) + repeated('-', (bar_width(width) - filled) as nat) + "]"@
}

fn push_repeated(out: &mut String, c: char, n: usize)
    ensures
        final(out)@ == old(out)@ + repeated(c, n as nat),
{
    let mut i: usize = 0;
    assert(out@ =~= old(out)@ + repeated(c, 0));
    while i < n
        invariant
            i <= n,
            out@ == old(out)@ + repeated(c, i as nat),
        decreases n - i,
    {
        out.push(c);
        i = i + 1;
        assert(out@ =~= old(out)@ + repeated(c, i as nat));
    }
}

/// A progress bar with `filled` of its cells filled.
pub fn progress_bar(filled: usize, width: usize) -> (r: String)
    requires
        filled <= bar_width(width),
    ensures
        r@ == bar(filled as nat, width),
{
    let w: usize = if width < 2 {
        2
    } else {
        width
    };
    let mut s: String = "[".to_owned();
    push_repeated(&mut s, '#', filled);
    push_repeated(&mut s, '-', w - filled);
    s.append("]");
    s
}

/// The last address of the pool.
pub fn pool_end() -> (r: String)
    ensures
        r@ == net::ip_text(net::pool_address(POOL_START_VALUE, POOL_SIZE - 1)),
{
    net::ip_string(POOL_START_VALUE.wrapping_add(POOL_SIZE - 1))
}

} // verus!
