//! A plain `current / total` counter.
use vstd::prelude::*;
use crate::text::{dec, push_dec, string_of};

verus! {

/// A counter with a total.
pub struct Progress {
    pub total: usize,
    pub cur: usize,
}

impl Progress {
    /// A counter at zero of `total`.
    pub fn new(total: usize) -> (r: Self)
        ensures
            r.total == total,
            r.cur == 0,
    {
        Progress { total, cur: 0 }
    }

    /// Sets the current value.
    pub fn update(&mut self, cur: usize)
        ensures
            final(self).cur == cur,
            final(self).total == old(self).total,
    {
        self.cur = cur;
    }

    /// `"<cur> / <total>"`.
    pub fn view(&self) -> (r: String)
        ensures
            r@ == dec(self.cur as nat) + seq![' ', '/', ' '] + dec(self.total as nat),
    {
        let mut out: Vec<char> = Vec::new();
        push_dec(&mut out, self.cur as u64);
        out.push(' ');
        out.push('/');
        out.push(' ');
        push_dec(&mut out, self.total as u64);
        string_of(&out)
    }
}

} // verus!
