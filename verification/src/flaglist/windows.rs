//! Switches under WebView2, which takes them all as one argument string.

use vstd::prelude::*;
use crate::text::views;

verus! {

/// Under WebView2 every switch applies: the list is left as it is.
pub fn filter_for_platform(flags: Vec<String>) -> (r: Vec<String>)
    ensures
        r == flags,
{
    flags
}

/// Each switch followed by one space, in order.
pub open spec fn args_line(flags: Seq<Seq<char>>) -> Seq<char>
    decreases flags.len(),
{
    if flags.len() == 0 {
        Seq::empty()
    } else {
        args_line(flags.drop_last()) + flags.last() + seq![' ']
    }
}

/// The switches as WebView2's additional browser arguments: each one
/// followed by a space.
pub fn join(flags: Vec<String>) -> (r: String)
    ensures
        r@ == args_line(views(flags@)),
{
    let flags = filter_for_platform(flags);
    let mut args = String::new();
    let mut i: usize = 0;
    while i < flags.len()
        invariant
            i <= flags@.len(),
            args@ == args_line(views(flags@).take(i as int)),
        decreases flags.len() - i,
    {
        proof {
            let fv = views(flags@);
            assert(fv.take(i + 1).drop_last() =~= fv.take(i as int));
        }
        args.append(flags[i].as_str());
        args.append(" ");
        proof {
            reveal_strlit(" ");
            assert(args@ =~= args_line(views(flags@).take(i + 1)));
        }
        i += 1;
    }
    proof {
        assert(views(flags@).take(flags@.len() as int) =~= views(flags@));
    }
    args
}

} // verus!
