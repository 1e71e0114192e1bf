use vstd::prelude::*;

verus! {

/// Values stored in pages of a fixed size: a value, once added, stays at its place.
pub struct PinnedData<T> {
    page_size: usize,
    pages: Vec<Vec<T>>,
}

impl<T> PinnedData<T> {
    /// The pages and the values in them.
    pub closed spec fn spec_pages(&self) -> Seq<Seq<T>> {
        self.pages@.map_values(|p: Vec<T>| p@)
    }

    pub closed spec fn spec_page_size(&self) -> nat {
        self.page_size as nat
    }

    /// `h` names a stored value: a page and a place in it.
    pub open spec fn valid(&self, h: (usize, usize)) -> bool {
        h.0 < self.spec_pages().len() && h.1 < self.spec_pages()[h.0 as int].len()
    }

    /// The value that `h` names.
    pub open spec fn value(&self, h: (usize, usize)) -> T {
        self.spec_pages()[h.0 as int][h.1 as int]
    }

    pub open spec fn wf(&self) -> bool {
        &&& self.spec_page_size() > 0
        &&& forall|p: int| 0 <= p < self.spec_pages().len() ==> #[trigger] self.spec_pages()[p].len() <= self.spec_page_size()
    }

    /// Storage whose pages hold `page_size` values each.
    pub fn for_page_size(page_size: usize) -> (r: Self)
        requires
            page_size > 0,
        ensures
            r.wf(),
            r.spec_page_size() == page_size,
            r.spec_pages().len() == 0,
    {
        let r = Self { page_size, pages: Vec::new() };
        assert(r.spec_pages() =~= Seq::empty());
        r
    }

    fn last_has_capacity(&self) -> (r: bool)
        requires
            self.wf(),
        ensures
            r == (self.spec_pages().len() > 0 && self.spec_pages().last().len() < self.spec_page_size()),
    {
        let n = self.pages.len();
        if n > 0 {
            self.pages[n - 1].len() < self.page_size
        } else {
            false
        }
    }

    /// Stores `v` and says where; no value already stored moves or changes.
    pub fn add(&mut self, v: T) -> (r: (usize, usize))
        requires
            old(self).wf(),
        ensures
            final(self).wf(),
            final(self).spec_page_size() == old(self).spec_page_size(),
            final(self).valid(r),
            !old(self).valid(r),
            final(self).value(r) == v,
            forall|h: (usize, usize)| old(self).valid(h) ==> #[trigger] final(self).valid(h) && final(self).value(h) == old(self).value(h),
    {
        if !self.last_has_capacity() {
            let new_row: Vec<T> = Vec::with_capacity(self.page_size);
            self.pages.push(new_row);
        }
        let ghost mid = self.pages@;
        let row = self.pages.len() - 1;
        let mut last = self.pages.pop().unwrap();
        let pos = last.len();
        last.push(v);
        self.pages.push(last);
        proof {
            assert(self.spec_pages() =~= old(self).spec_pages().update(row as int, self.pages@[row as int]@)
                || self.spec_pages() =~= old(self).spec_pages().push(self.pages@[row as int]@));
            assert forall|p: int| 0 <= p < self.spec_pages().len() implies #[trigger] self.spec_pages()[p].len() <= self.spec_page_size() by {
                if p < row {
                    assert(self.pages@[p] == mid[p]);
                }
            }
            assert forall|h: (usize, usize)| old(self).valid(h) implies #[trigger] final(self).valid(h) && final(self).value(h) == old(self).value(h) by {
                if h.0 < row {
                    assert(self.pages@[h.0 as int] == mid[h.0 as int]);
                }
            }
        }
        (row, pos)
    }

    /// The value that `h` names.
    pub fn get(&self, h: (usize, usize)) -> (r: &T)
        requires
            self.valid(h),
        ensures
            *r == self.value(h),
    {
        &self.pages[h.0][h.1]
    }

    /// The value that `h` names, or `None` where `h` names nothing.
    pub fn try_get(&self, h: (usize, usize)) -> (r: Option<&T>)
        ensures
            r is Some <==> self.valid(h),
            r is Some ==> *r->0 == self.value(h),
    {
        if h.0 < self.pages.len() && h.1 < self.pages[h.0].len() {
            Some(&self.pages[h.0][h.1])
        } else {
            None
        }
    }
}

} // verus!
