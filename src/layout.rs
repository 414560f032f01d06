use vstd::prelude::*;

verus! {

/// The cells of a run of label sheets: `skip` blank cells, which keep the
/// used places of a partly used first sheet empty, then one cell for each
/// label, holding its index.
pub open spec fn sheet_cells(skip: int, labels: int) -> Seq<Option<usize>> {
    Seq::new((skip + labels) as nat, |k: int| if k < skip { None } else { Some((k - skip) as usize) })
}

/// How many pages `total` cells fill at `per_page` cells a page. With no
/// cells at all there is still one, empty, page.
pub open spec fn page_count(total: int, per_page: int) -> int {
    if total == 0 {
        1
    } else {
        (total + per_page - 1) / per_page
    }
}

/// The cells of page `p`: the next `per_page` cells, or what is left of them.
pub open spec fn page(cells: Seq<Option<usize>>, p: int, per_page: int) -> Seq<Option<usize>> {
    let start = p * per_page;
    let end = if (p + 1) * per_page < cells.len() {
        (p + 1) * per_page
    } else {
        cells.len() as int
    };
    cells.subrange(start, end)
}

proof fn lemma_last_page(pages: int, per_page: int, total: int)
    requires
        per_page > 0,
        pages >= 1,
        (pages - 1) * per_page < total <= pages * per_page,
    ensures
        page_count(total, per_page) == pages,
{
    assert((total + per_page - 1) / per_page == pages) by (nonlinear_arith)
        requires
            per_page > 0,
            pages >= 1,
            (pages - 1) * per_page < total <= pages * per_page,
    {
        let q = (total + per_page - 1) / per_page;
        assert(q * per_page <= total + per_page - 1 < (q + 1) * per_page);
        if q < pages {
            assert(q * per_page + per_page <= pages * per_page);
        }
        if q > pages {
            assert(pages * per_page + per_page <= q * per_page);
        }
    }
}

/// Lays the labels out on pages of `per_page` cells, after `skip` blank
/// cells: each page is a run of consecutive cells, all pages but the last
/// are full, and no cells at all still give one empty page.
pub fn page_cells(per_page: usize, skip: usize, labels: usize) -> (r: Vec<Vec<Option<usize>>>)
    requires
        per_page > 0,
        skip + labels <= usize::MAX,
    ensures
        r@.len() == page_count(skip + labels, per_page as int),
        forall|p: int|
            0 <= p < r@.len() ==> (#[trigger] r@[p])@ == page(
                sheet_cells(skip as int, labels as int),
                p,
                per_page as int,
            ),
{
    let total = skip + labels;
    let ghost cells = sheet_cells(skip as int, labels as int);
    let mut pages: Vec<Vec<Option<usize>>> = Vec::new();
    let mut start: usize = 0;
    loop
        invariant
            total == skip + labels,
            cells == sheet_cells(skip as int, labels as int),
            per_page > 0,
            start == pages@.len() * per_page,
            start <= total,
            start < total || pages@.len() == 0,
            forall|q: int|
                0 <= q < pages@.len() ==> (#[trigger] pages@[q])@ == page(cells, q, per_page as int),
        decreases total - start + per_page * (if pages@.len() == 0 { 1int } else { 0 }),
    {
        let end = if total - start > per_page {
            start + per_page
        } else {
            total
        };
        let mut cur: Vec<Option<usize>> = Vec::new();
        let mut k: usize = start;
        while k < end
            invariant
                start <= k <= end <= total,
                total == skip + labels,
                cells == sheet_cells(skip as int, labels as int),
                cur@ == cells.subrange(start as int, k as int),
            decreases end - k,
        {
            let cell = if k < skip {
                None
            } else {
                Some(k - skip)
            };
            cur.push(cell);
            assert(cur@ =~= cells.subrange(start as int, k + 1));
            k = k + 1;
        }
        let ghost p = pages@.len() as int;
        assert(start + per_page == (p + 1) * per_page) by (nonlinear_arith)
            requires start == p * per_page;
        assert(cur@ == page(cells, p, per_page as int));
        pages.push(cur);
        if end == total {
            proof {
                if total > 0 {
                    lemma_last_page(p + 1, per_page as int, total as int);
                }
            }
            return pages;
        }
        start = end;
    }
}

} // verus!
