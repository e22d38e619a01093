//! Decision logic of the command proxy.
//!
//! The proxy spawns a fixed system executable with the caller's arguments,
//! forwards the three standard streams, and terminates the current process
//! with the child's exit status. Spawning, stream forwarding and process
//! exit are plain I/O and live in the surrounding binary; the two decisions
//! it takes — which arguments to forward and which code to exit with — are
//! verified here.

use vstd::prelude::*;

verus! {

/// Exit code used when the child cannot be waited on or reports no exit
/// code (for example when it was killed by a signal).
pub const GENERIC_FAILURE_CODE: i32 = -1;

/// Arguments handed to the child: the proxy's own argument list with the
/// leading program name discarded and the remainder kept verbatim, in order.
pub fn forwarded_args(args: &Vec<String>) -> (r: Vec<String>)
    ensures
        r@ == (if args@.len() == 0 {
            args@
        } else {
            args@.skip(1)
        }),
{
    let n = args.len();
    let mut r: Vec<String> = Vec::new();
    if n == 0 {
        proof {
            assert(r@ =~= args@);
        }
        return r;
    }
    let mut i: usize = 1;
    while i < n
        invariant
            1 <= i <= n,
            n == args@.len(),
            r@ == args@.subrange(1, i as int),
        decreases n - i,
    {
        let a = args[i].clone();
        r.push(a);
        proof {
            assert(r@ =~= args@.subrange(1, i + 1 as int));
        }
        i += 1;
    }
    proof {
        assert(r@ =~= args@.skip(1));
    }
    r
}

/// Exit code the proxy must terminate with, given the child's status: the
/// child's own code when one is available, the generic failure code when
/// the wait failed or no code was reported.
pub fn proxy_exit_code(status: Option<i32>) -> (r: i32)
    ensures
        status matches Some(c) ==> r == c,
        status is None ==> r == GENERIC_FAILURE_CODE,
{
    match status {
        Some(c) => c,
        None => GENERIC_FAILURE_CODE,
    }
}

} // verus!
