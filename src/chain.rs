//! Sequencing filters into a pipeline.
use crate::filters::Filter;
use crate::pixel::{BufferView, FilterError, PixelBuffer};
use vstd::prelude::*;

verus! {

/// The raster that results from folding `v` through `fs`, first filter first.
pub open spec fn chain_view(fs: Seq<Filter>, v: BufferView) -> BufferView
    decreases fs.len(),
{
    if fs.len() == 0 {
        v
    } else {
        fs.last().spec_apply(chain_view(fs.drop_last(), v))
    }
}

pub open spec fn all_wf(fs: Seq<Filter>) -> bool {
    forall|i: int| 0 <= i < fs.len() ==> #[trigger] fs[i].wf()
}

/// An ordered sequence of filters, each fed the previous one's output.
pub struct FilterChain {
    pub filters: Vec<Filter>,
}

impl FilterChain {
    pub open spec fn wf(&self) -> bool {
        all_wf(self.filters@)
    }

    /// Builds a chain; fails with `Configuration` if any filter is misconfigured,
    /// before any pixel work begins.
    pub fn new(filters: Vec<Filter>) -> (r: Result<FilterChain, FilterError>)
        ensures
            all_wf(filters@) <==> r is Ok,
            r is Ok ==> r->Ok_0.filters@ == filters@,
            r is Err ==> r->Err_0 == FilterError::Configuration,
    {
        let mut i: usize = 0;
        while i < filters.len()
            invariant
                i <= filters@.len(),
                forall|j: int| 0 <= j < i ==> #[trigger] filters@[j].wf(),
            decreases filters@.len() - i,
        {
            if !filters[i].is_valid() {
                return Err(FilterError::Configuration);
            }
            i = i + 1;
        }
        Ok(FilterChain { filters })
    }

    /// Folds `buf` through every filter in order.
    pub fn apply(&self, buf: PixelBuffer) -> (r: PixelBuffer)
        requires
            self.wf(),
            buf.wf(),
        ensures
            r.wf(),
            r@ == chain_view(self.filters@, buf@),
    {
        let ghost v = buf@;
        let mut cur = buf;
        let mut i: usize = 0;
        while i < self.filters.len()
            invariant
                self.wf(),
                i <= self.filters@.len(),
                cur.wf(),
                cur@ == chain_view(self.filters@.take(i as int), v),
            decreases self.filters@.len() - i,
        {
            let next = self.filters[i].apply(&cur);
            proof {
                let fs = self.filters@;
                assert(fs.take(i + 1).drop_last() =~= fs.take(i as int));
                assert(fs.take(i + 1).last() == fs[i as int]);
            }
            cur = next;
            i = i + 1;
        }
        assert(self.filters@.take(i as int) =~= self.filters@);
        cur
    }
}

} // verus!
