//! How the sources are spread over threads.

use vstd::prelude::*;

verus! {

/// In which batches the sources are processed.
#[derive(Debug)]
pub enum Schedule {
    /// One after the other, without threads of their own.
    Sequential,
    /// The sources of a batch each on a thread of its own, one batch after the other.
    Batches(Vec<Vec<usize>>),
}

/// Whether the sources are processed on threads of their own.
pub open spec fn is_parallel(sources: nat, threads: u8) -> bool {
    threads > 1 && sources > 1
}

/// The positions from `from` to before `end`.
pub open spec fn positions(from: int, end: int) -> Seq<usize> {
    Seq::new((end - from) as nat, |i: int| (from + i) as usize)
}

/// The sources in batches of `size`, of which only the last may be smaller.
pub open spec fn batches(from: int, sources: int, size: int) -> Seq<Seq<usize>>
    decreases sources - from,
{
    if from >= sources || size <= 0 {
        Seq::empty()
    } else if from + size >= sources {
        seq![positions(from, sources)]
    } else {
        seq![positions(from, from + size)] + batches(from + size, sources, size)
    }
}

/// The positions in a list of batches.
pub open spec fn batches_view(batches: Seq<Vec<usize>>) -> Seq<Seq<usize>> {
    batches.map_values(|b: Vec<usize>| b@)
}

fn batch(from: usize, end: usize) -> (r: Vec<usize>)
    requires
        from <= end,
    ensures
        r@ == positions(from as int, end as int),
{
    let mut sources: Vec<usize> = Vec::new();
    let mut i: usize = from;
    while i < end
        invariant
            from <= i <= end,
            sources@ == positions(from as int, i as int),
        decreases end - i,
    {
        sources.push(i);
        i = i + 1;
        assert(sources@ =~= positions(from as int, i as int));
    }
    sources
}

/// In which batches the sources are processed: with more than one thread and more than one source,
/// as many at a time as there are threads.
pub fn schedule_sources(sources: usize, threads: u8) -> (r: Schedule)
    ensures
        r is Batches <==> is_parallel(sources as nat, threads),
        r is Batches ==> batches_view(r->Batches_0@) == batches(0, sources as int, threads as int),
{
    if threads <= 1 || sources <= 1 {
        return Schedule::Sequential;
    }
    let size: usize = threads as usize;
    let ghost all = batches(0, sources as int, size as int);
    let mut found: Vec<Vec<usize>> = Vec::new();
    let mut from: usize = 0;
    assert(batches_view(found@) + all =~= all);
    while from < sources
        invariant
            from <= sources,
            size > 0,
            batches_view(found@) + batches(from as int, sources as int, size as int) == all,
        decreases sources - from,
    {
        let end: usize = if sources - from <= size {
            sources
        } else {
            from + size
        };
        let ghost before = found@;
        let sources_of_batch = batch(from, end);
        let ghost rest = batches(end as int, sources as int, size as int);
        found.push(sources_of_batch);
        proof {
            assert(batches(from as int, sources as int, size as int) =~= seq![
                sources_of_batch@,
            ] + rest);
            assert(batches_view(found@) =~= batches_view(before).push(sources_of_batch@));
            assert(batches_view(found@) + rest =~= batches_view(before) + (seq![
                sources_of_batch@,
            ] + rest));
        }
        from = end;
    }
    assert(batches_view(found@) =~= all);
    Schedule::Batches(found)
}

/// Every source is in exactly one batch, once, and the sources come in order.
pub proof fn batches_hold_every_source(from: int, sources: int, size: int)
    requires
        0 <= from <= sources <= usize::MAX,
        size > 0,
    ensures
        batches(from, sources, size).flatten() == positions(from, sources),
    decreases sources - from,
{
    let all = batches(from, sources, size);
    if from >= sources {
        assert(all.flatten() =~= positions(from, sources));
    } else if from + size >= sources {
        assert(all.drop_first() =~= Seq::<Seq<usize>>::empty());
        assert(all.drop_first().flatten() =~= Seq::<usize>::empty());
        assert(all.flatten() =~= positions(from, sources));
    } else {
        batches_hold_every_source(from + size, sources, size);
        assert(all.drop_first() =~= batches(from + size, sources, size));
        assert(all.flatten() =~= positions(from, sources));
    }
}

/// No batch is empty or has more sources than there are threads, and only the last has fewer.
pub proof fn batches_fill_the_threads(from: int, sources: int, size: int)
    requires
        0 <= from <= sources,
        size > 0,
    ensures
        forall|i: int|
            0 <= i < batches(from, sources, size).len() ==> {
                &&& 0 < (#[trigger] batches(from, sources, size)[i]).len() <= size
                &&& i < batches(from, sources, size).len() - 1 ==> batches(
                    from,
                    sources,
                    size,
                )[i].len() == size
            },
    decreases sources - from,
{
    if from < sources && from + size < sources {
        let rest = batches(from + size, sources, size);
        batches_fill_the_threads(from + size, sources, size);
        let all = batches(from, sources, size);
        assert forall|i: int| 0 <= i < all.len() implies {
            &&& 0 < (#[trigger] all[i]).len() <= size
            &&& i < all.len() - 1 ==> all[i].len() == size
        } by {
            if i > 0 {
                assert(all[i] == rest[i - 1]);
            }
        }
    }
}

} // verus!
