use vstd::prelude::*;

verus! {

/// Strict round-robin choice over a fixed list of upstream addresses.
pub struct Api {
    pub urls: Vec<String>,
    pub current_index: usize,
}

impl Api {
    /// The position of the next choice lies within the list, or is zero for
    /// an empty list.
    pub open spec fn wf(&self) -> bool {
        if self.urls@.len() == 0 {
            self.current_index == 0
        } else {
            self.current_index < self.urls@.len()
        }
    }

    /// A dispatcher whose first choice is the first address.
    pub fn new(urls: Vec<String>) -> (r: Self)
        ensures
            r.wf(),
            r.urls@ == urls@,
            r.current_index == 0,
    {
        Self { urls, current_index: 0 }
    }

    /// The address at the current position; the position then moves one
    /// step, wrapping round to the first address after the last.
    pub fn next_url(&mut self) -> (r: String)
        requires
            old(self).wf(),
            old(self).urls@.len() > 0,
        ensures
            final(self).wf(),
            r@ == old(self).urls@[old(self).current_index as int]@,
            final(self).urls@ == old(self).urls@,
            final(self).current_index == (old(self).current_index + 1) % (old(
                self,
            ).urls@.len() as int),
    {
        let n = self.urls.len();
        let url = self.urls[self.current_index].clone();
        self.current_index = (self.current_index + 1) % n;
        url
    }
}

} // verus!
