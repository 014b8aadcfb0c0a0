use vstd::prelude::*;

verus! {

/// The number of entries a listing returns when the caller names no size.
pub const DEFAULT_PAGE_SIZE: u32 = 200;

/// Where page `page` of `size` entries starts in a sequence of `len` entries.
pub open spec fn page_start(len: int, page: int, size: int) -> int {
    if page * size < len {
        page * size
    } else {
        len
    }
}

/// Where that page ends.
pub open spec fn page_end(len: int, page: int, size: int) -> int {
    if page_start(len, page, size) + size < len {
        page_start(len, page, size) + size
    } else {
        len
    }
}

/// Page `page` of `size` entries of `s`, cut short at its end.
pub open spec fn page_of<T>(s: Seq<T>, page: int, size: int) -> Seq<T> {
    s.subrange(page_start(s.len() as int, page, size), page_end(s.len() as int, page, size))
}

/// The position a backward page stops at: `before`, or the length when that is smaller.
pub open spec fn cursor_end(len: int, before: int) -> int {
    if before < len {
        before
    } else {
        len
    }
}

/// The position a backward page starts at.
pub open spec fn cursor_start(len: int, before: int, size: int) -> int {
    if cursor_end(len, before) - size > 0 {
        cursor_end(len, before) - size
    } else {
        0
    }
}

/// Up to `size` entries of `s` that stand before position `before`, the
/// latest first.
pub open spec fn page_before<T>(s: Seq<T>, before: int, size: int) -> Seq<T> {
    s.subrange(cursor_start(s.len() as int, before, size), cursor_end(s.len() as int, before)).reverse()
}

/// Pages `0 .. k` of `s`, one after the other.
pub open spec fn pages_concat<T>(s: Seq<T>, size: int, k: nat) -> Seq<T>
    decreases k,
{
    if k == 0 {
        Seq::empty()
    } else {
        pages_concat(s, size, (k - 1) as nat) + page_of(s, k - 1, size)
    }
}

/// How many pages of `size` entries cover `len` entries.
pub open spec fn pages_needed(len: nat, size: int) -> nat {
    ((len + size - 1) / size) as nat
}

/// `k` backward pages of `s`, starting before `before`, each next one
/// starting where the last one began.
pub open spec fn cursor_walk<T>(s: Seq<T>, before: int, size: int, k: nat) -> Seq<T>
    decreases k,
{
    if k == 0 {
        Seq::empty()
    } else {
        page_before(s, before, size) + cursor_walk(
            s,
            cursor_start(s.len() as int, before, size),
            size,
            (k - 1) as nat,
        )
    }
}

proof fn lemma_pages_prefix<T>(s: Seq<T>, size: int, k: nat)
    requires
        size >= 1,
    ensures
        pages_concat(s, size, k) == s.subrange(0, page_start(s.len() as int, k as int, size)),
    decreases k,
{
    if k > 0 {
        lemma_pages_prefix(s, size, (k - 1) as nat);
        let len = s.len() as int;
        assert((k - 1) * size + size == k * size) by (nonlinear_arith);
        assert(page_end(len, k - 1, size) == page_start(len, k as int, size));
        assert(pages_concat(s, size, k) =~= s.subrange(0, page_start(len, k as int, size)));
    }
}

/// Listing by page number is complete and without overlap: for any page
/// size of at least one, the pages in order, concatenated, are the whole
/// index, each entry once and in place.
pub proof fn lemma_pages_cover<T>(s: Seq<T>, size: int)
    requires
        size >= 1,
    ensures
        pages_concat(s, size, pages_needed(s.len(), size)) == s,
{
    let len = s.len() as int;
    let n = pages_needed(s.len(), size);
    lemma_pages_prefix(s, size, n);
    assert(n * size >= len) by (nonlinear_arith)
        requires
            n == (len + size - 1) / size,
            size >= 1,
            len >= 0,
    ;
    assert(s.subrange(0, len) =~= s);
}

proof fn lemma_walk_suffix<T>(s: Seq<T>, before: int, size: int, k: nat)
    requires
        size >= 1,
        0 <= before <= s.len(),
    ensures
        cursor_walk(s, before, size, k) == s.subrange(
            if before - k * size > 0 { before - k * size } else { 0 },
            before,
        ).reverse(),
    decreases k,
{
    let lo = if before - k * size > 0 { before - k * size } else { 0 };
    if k == 0 {
        assert(k * size == 0) by (nonlinear_arith)
            requires
                k == 0,
        ;
        assert(s.subrange(before, before).reverse() =~= Seq::<T>::empty());
    } else {
        let mid = cursor_start(s.len() as int, before, size);
        lemma_walk_suffix(s, mid, size, (k - 1) as nat);
        assert(before - k * size == before - size - (k - 1) * size) by (nonlinear_arith);
        let lo2 = if mid - (k - 1) * size > 0 { mid - (k - 1) * size } else { 0 };
        assert((k - 1) * size >= 0) by (nonlinear_arith)
            requires
                k >= 1,
                size >= 1,
        ;
        assert(lo2 == lo);
        let a = s.subrange(lo, mid);
        let b = s.subrange(mid, before);
        assert(s.subrange(lo, before) =~= a + b);
        assert((a + b).reverse() =~= b.reverse() + a.reverse());
        assert(page_before(s, before, size) == b.reverse());
        assert(cursor_walk(s, before, size, k) == b.reverse() + a.reverse());
    }
}

/// Listing backwards by cursor is complete and without overlap: starting
/// at the end and passing each page's start as the next cursor, enough
/// pages of any size of at least one give the whole log exactly once,
/// latest first.
pub proof fn lemma_cursor_walk_covers<T>(s: Seq<T>, size: int)
    requires
        size >= 1,
    ensures
        cursor_walk(s, s.len() as int, size, pages_needed(s.len(), size)) == s.reverse(),
{
    let len = s.len() as int;
    let n = pages_needed(s.len(), size);
    lemma_walk_suffix(s, len, size, n);
    assert(n * size >= len) by (nonlinear_arith)
        requires
            n == (len + size - 1) / size,
            size >= 1,
            len >= 0,
    ;
    assert(s.subrange(0, len) =~= s);
}

/// The page of `v` that `page_of` describes.
pub fn page_entries(v: &Vec<u32>, page: u32, size: u32) -> (r: Vec<u32>)
    ensures
        r@ == page_of(v@, page as int, size as int),
{
    let len = v.len();
    assert((page as int) * (size as int) <= 0xffff_ffffu64 * 0xffff_ffffu64) by (nonlinear_arith)
        requires
            page <= 0xffff_ffffu32,
            size <= 0xffff_ffffu32,
    ;
    let want: u64 = page as u64 * size as u64;
    let start: usize = if want < len as u64 {
        want as usize
    } else {
        len
    };
    let end: usize = if (size as u64) < (len - start) as u64 {
        start + size as usize
    } else {
        len
    };
    let mut out: Vec<u32> = Vec::new();
    let mut i: usize = start;
    while i < end
        invariant
            start <= i <= end,
            end <= v@.len(),
            out@ == v@.subrange(start as int, i as int),
        decreases end - i,
    {
        out.push(v[i]);
        i += 1;
        assert(out@ =~= v@.subrange(start as int, i as int));
    }
    out
}

/// The backward page of `v` that `page_before` describes.
pub fn entries_before(v: &Vec<u32>, before: usize, size: u32) -> (r: Vec<u32>)
    ensures
        r@ == page_before(v@, before as int, size as int),
{
    let len = v.len();
    let end: usize = if before < len {
        before
    } else {
        len
    };
    let start: usize = if end as u64 > size as u64 {
        end - size as usize
    } else {
        0
    };
    let ghost part = v@.subrange(start as int, end as int);
    let mut out: Vec<u32> = Vec::new();
    let mut i: usize = end;
    while i > start
        invariant
            start <= i <= end,
            end <= v@.len(),
            part == v@.subrange(start as int, end as int),
            out@ =~= v@.subrange(i as int, end as int).reverse(),
        decreases i - start,
    {
        i -= 1;
        out.push(v[i]);
        assert(out@ =~= v@.subrange(i as int, end as int).reverse());
    }
    out
}

} // verus!
