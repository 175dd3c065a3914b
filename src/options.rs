//! Options shared by the subcommands.
use core::cmp::Ordering;
use vstd::prelude::*;

verus! {

/// The key by which records are sorted.
#[derive(Clone, Copy, Debug, PartialEq, Eq, Structural)]
pub enum SortType {
    Length,
    Id,
    Gc,
    Entropy,
    Softmask,
    Ambiguous,
}

/// Options that apply to every subcommand.
#[derive(Clone, Copy, Debug, PartialEq, Eq, Structural)]
pub struct GlobalOpts {
    /// Worker threads; zero lets the pool choose.
    pub threads: usize,
}

/// `ordering` as it stands for an ascending sort, reversed for a
/// descending one.
pub fn ascending_or_descending(ordering: Ordering, reverse: bool) -> (r: Ordering)
    ensures
        !reverse ==> r == ordering,
        reverse ==> r == match ordering {
            Ordering::Less => Ordering::Greater,
            Ordering::Equal => Ordering::Equal,
            Ordering::Greater => Ordering::Less,
        },
{
    if !reverse {
        ordering
    } else {
        match ordering {
            Ordering::Less => Ordering::Greater,
            Ordering::Equal => Ordering::Equal,
            Ordering::Greater => Ordering::Less,
        }
    }
}

} // verus!
