use vstd::prelude::*;

verus! {

/// First position of a page over `len` entries: `from_index`, or the start,
/// never past the end.
pub open spec fn page_start(len: nat, from_index: Option<u64>) -> nat {
    match from_index {
        Some(f) => if f <= len { f as nat } else { len },
        None => 0,
    }
}

/// One past the last position of a page: `limit` entries from the start, or
/// all the remaining ones, never past the end.
pub open spec fn page_end(len: nat, from_index: Option<u64>, limit: Option<u64>) -> nat {
    let start = page_start(len, from_index);
    match limit {
        Some(l) => if start + l <= len { (start + l) as nat } else { len },
        None => len,
    }
}

/// Copies the entries of an ordered key-value container from position
/// `from_index` (the first entry if absent), at most `limit` of them (all the
/// rest if absent), in their order.
pub fn unordered_map_pagination<K: Clone, V: Clone>(
    entries: &Vec<(K, V)>,
    from_index: Option<u64>,
    limit: Option<u64>,
) -> (page: Vec<(K, V)>)
    ensures
        page@.len() == page_end(entries@.len(), from_index, limit) - page_start(
            entries@.len(),
            from_index,
        ),
        forall|i: int|
            0 <= i < page@.len() ==> {
                let e = entries@[page_start(entries@.len(), from_index) + i];
                cloned(e.0, (#[trigger] page@[i]).0) && cloned(e.1, page@[i].1)
            },
{
    let len = entries.len();
    let start: usize = match from_index {
        Some(f) => if f <= len as u64 { f as usize } else { len },
        None => 0,
    };
    let end: usize = match limit {
        Some(l) => if l <= (len - start) as u64 { start + l as usize } else { len },
        None => len,
    };
    let mut page: Vec<(K, V)> = Vec::new();
    let mut j: usize = start;
    while j < end
        invariant
            len == entries@.len(),
            start == page_start(entries@.len(), from_index),
            end == page_end(entries@.len(), from_index, limit),
            start <= j <= end <= len,
            page@.len() == j - start,
            forall|i: int|
                0 <= i < page@.len() ==> {
                    let e = entries@[start + i];
                    cloned(e.0, (#[trigger] page@[i]).0) && cloned(e.1, page@[i].1)
                },
        decreases end - j,
    {
        let key = entries[j].0.clone();
        let value = entries[j].1.clone();
        page.push((key, value));
        j = j + 1;
    }
    page
}

} // verus!
