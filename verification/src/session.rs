use vstd::prelude::*;

verus! {

/// How many results one fetched page holds.
pub const PAGE_SIZE: usize = 1000;

/// Where a navigation step leads: the wanted result is already in the loaded
/// page at the given local index, or a page must be fetched first, from the
/// given global index and byte offset.
pub enum NavStep {
    Within(usize),
    Fetch { start_index: usize, start_offset: usize },
}

/// The consumer's search-session state: the global index of the current
/// result, the total result count, the loaded page's first global index and
/// length, and the byte offsets at which the known pages begin
/// (`page_offsets[k]` is the offset from which page `k` was or would be
/// fetched).
pub struct SearchSession {
    pub current_index: usize,
    pub total_results: usize,
    pub page_start: usize,
    pub page_len: usize,
    pub page_offsets: Vec<usize>,
}

impl SearchSession {
    /// The byte offsets of the known pages.
    pub open spec fn spec_page_offsets(&self) -> Seq<usize> {
        self.page_offsets@
    }

    /// The session's invariant: the current index lies below the total (or
    /// everything is empty), and page 0 begins at offset 0 when known.
    pub open spec fn wf(&self) -> bool {
        &&& (self.total_results > 0 ==> self.current_index < self.total_results)
        &&& (self.total_results == 0 ==> self.current_index == 0)
        &&& (self.spec_page_offsets().len() > 0 ==> self.spec_page_offsets()[0] == 0)
    }

    /// A fresh session: nothing found, nothing loaded.
    pub fn new() -> (r: SearchSession)
        ensures
            r.wf(),
            r.current_index == 0,
            r.total_results == 0,
            r.page_start == 0,
            r.page_len == 0,
            r.spec_page_offsets().len() == 0,
    {
        SearchSession {
            current_index: 0,
            total_results: 0,
            page_start: 0,
            page_len: 0,
            page_offsets: Vec::new(),
        }
    }

    /// The index one step forward, wrapping from the last result to the
    /// first.
    pub fn next_index(&self) -> (r: usize)
        requires
            self.wf(),
            self.total_results > 0,
        ensures
            r == if self.current_index + 1 < self.total_results {
                self.current_index + 1
            } else {
                0int
            },
            r < self.total_results,
    {
        if self.current_index + 1 < self.total_results {
            self.current_index + 1
        } else {
            0
        }
    }

    /// The index one step back, wrapping from the first result to the last.
    pub fn previous_index(&self) -> (r: usize)
        requires
            self.wf(),
            self.total_results > 0,
        ensures
            r == if self.current_index == 0 {
                self.total_results - 1
            } else {
                self.current_index - 1
            },
            r < self.total_results,
    {
        if self.current_index == 0 {
            self.total_results - 1
        } else {
            self.current_index - 1
        }
    }

    /// The page a global result index belongs to.
    pub fn page_of(&self, index: usize) -> (r: usize)
        ensures
            r == index as int / PAGE_SIZE as int,
    {
        index / PAGE_SIZE
    }

    /// The byte offset at which the given page begins, when it is known.
    pub fn known_page_offset(&self, page: usize) -> (r: Option<usize>)
        ensures
            r matches Some(off) ==> page < self.spec_page_offsets().len() && off
                == self.spec_page_offsets()[page as int],
            r is None ==> page >= self.spec_page_offsets().len(),
    {
        if page < self.page_offsets.len() {
            Some(self.page_offsets[page])
        } else {
            None
        }
    }

    /// Record where a page begins: appended when it is the next unknown page,
    /// overwritten when already known, ignored when it would leave a gap.
    pub fn record_page_offset(&mut self, page: usize, offset: usize)
        requires
            old(self).wf(),
            page == 0 ==> offset == 0,
        ensures
            final(self).wf(),
            final(self).current_index == old(self).current_index,
            final(self).total_results == old(self).total_results,
            final(self).page_start == old(self).page_start,
            final(self).page_len == old(self).page_len,
            (page as int) < old(self).spec_page_offsets().len() ==> final(self).spec_page_offsets()
                == old(self).spec_page_offsets().update(page as int, offset),
            page == old(self).spec_page_offsets().len() ==> final(self).spec_page_offsets()
                == old(self).spec_page_offsets().push(offset),
            (page as int) > old(self).spec_page_offsets().len() ==> final(self).spec_page_offsets()
                == old(self).spec_page_offsets(),
    {
        if page < self.page_offsets.len() {
            self.page_offsets.set(page, offset);
        } else if page == self.page_offsets.len() {
            self.page_offsets.push(offset);
        }
    }

    /// Decide how to reach a global result index: serve it from the loaded
    /// page when it lies inside `[page_start, page_start + page_len)`, else
    /// name the page fetch that must run first — from the recorded offset of
    /// the target page when it is known, else from the top of the file.
    pub fn locate(&self, index: usize) -> (r: NavStep)
        requires
            self.wf(),
            index < self.total_results,
            self.page_start + self.page_len <= usize::MAX,
        ensures
            self.page_start <= index < self.page_start + self.page_len ==> (r
                matches NavStep::Within(local) && local == index - self.page_start),
            !(self.page_start <= index < self.page_start + self.page_len) ==> (r
                matches NavStep::Fetch { start_index, start_offset } && {
                let page = index as int / PAGE_SIZE as int;
                if page < self.spec_page_offsets().len() {
                    start_index as int == page * PAGE_SIZE as int && start_offset
                        == self.spec_page_offsets()[page]
                } else {
                    start_index == 0 && start_offset == 0
                }
            }),
    {
        if self.page_start <= index && index - self.page_start < self.page_len {
            NavStep::Within(index - self.page_start)
        } else {
            let page = index / PAGE_SIZE;
            proof {
                vstd::arithmetic::div_mod::lemma_fundamental_div_mod(
                    index as int,
                    PAGE_SIZE as int,
                );
                vstd::arithmetic::div_mod::lemma_mod_bound(index as int, PAGE_SIZE as int);
            }
            match self.known_page_offset(page) {
                Some(offset) => NavStep::Fetch {
                    start_index: page * PAGE_SIZE,
                    start_offset: offset,
                },
                None => NavStep::Fetch { start_index: 0, start_offset: 0 },
            }
        }
    }
}

} // verus!
