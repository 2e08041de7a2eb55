//! Runs of equal modules: the alternating widths of bars and spaces.

use vstd::prelude::*;

verus! {

/// How many elements at the front of `bits` equal the first one.
pub open spec fn first_run(bits: Seq<u8>) -> nat
    decreases bits.len(),
{
    if bits.len() == 0 {
        0
    } else if bits.len() > 1 && bits[1] == bits[0] {
        1 + first_run(bits.drop_first())
    } else {
        1
    }
}

/// The lengths of the maximal runs of equal elements, from left to right.
pub open spec fn run_lengths(bits: Seq<u8>) -> Seq<nat>
    decreases bits.len(),
{
    if bits.len() == 0 {
        seq![]
    } else {
        proof {
            lemma_first_run_bounds(bits);
        }
        seq![first_run(bits)] + run_lengths(bits.skip(first_run(bits) as int))
    }
}

/// Lengths as they are stored: in one byte each, the longest being 255.
pub open spec fn stored(lengths: Seq<nat>) -> Seq<u8> {
    lengths.map_values(
        |n: nat|
            if n < 255 {
                n as u8
            } else {
                255u8
            },
    )
}

/// The modules of a row of runs, `true` for black, the first run having colour `black`.
pub open spec fn modules(runs: Seq<u8>, black: bool) -> Seq<bool>
    decreases runs.len(),
{
    if runs.len() == 0 {
        seq![]
    } else {
        Seq::new(runs[0] as nat, |i: int| black) + modules(runs.drop_first(), !black)
    }
}

/// The number of modules in a row of runs.
pub open spec fn module_count(runs: Seq<u8>) -> nat
    decreases runs.len(),
{
    if runs.len() == 0 {
        0
    } else {
        module_count(runs.drop_last()) + runs.last() as nat
    }
}

/// The first run holds the leading elements equal to the first one, and no more.
pub proof fn lemma_first_run_bounds(bits: Seq<u8>)
    requires
        bits.len() > 0,
    ensures
        1 <= first_run(bits) <= bits.len(),
        forall|k: int| 0 <= k < first_run(bits) ==> #[trigger] bits[k] == bits[0],
        first_run(bits) < bits.len() ==> bits[first_run(bits) as int] != bits[0],
    decreases bits.len(),
{
    if bits.len() > 1 && bits[1] == bits[0] {
        let rest = bits.drop_first();
        lemma_first_run_bounds(rest);
        assert forall|k: int| 0 <= k < first_run(bits) implies #[trigger] bits[k] == bits[0] by {
            if k > 0 {
                assert(rest[k - 1] == bits[k]);
            }
        }
    }
}

/// A run is as long as the equal elements that a different one ends.
proof fn lemma_first_run_is(bits: Seq<u8>, n: nat)
    requires
        1 <= n <= bits.len(),
        forall|k: int| 0 <= k < n ==> #[trigger] bits[k] == bits[0],
        n < bits.len() ==> bits[n as int] != bits[0],
    ensures
        first_run(bits) == n,
{
    lemma_first_run_bounds(bits);
    if first_run(bits) < n {
        assert(bits[first_run(bits) as int] == bits[0]);
    }
    if n < first_run(bits) {
        assert(bits[n as int] == bits[0]);
    }
}

/// Writes a row of modules as runs, with the colour of the first (1 is black). An empty row has
/// none.
pub fn bits01_to_runs(bits: &Vec<u8>) -> (result: Option<(Vec<u8>, bool)>)
    ensures
        result is None <==> bits@.len() == 0,
        result matches Some(r) ==> r.0@ == stored(run_lengths(bits@)) && r.1 == (bits@[0] == 1),
{
    if bits.len() == 0 {
        return None;
    }
    let mut runs: Vec<u8> = Vec::new();
    let mut start: usize = 0;
    let mut i: usize = 1;
    let ghost mut done: Seq<nat> = seq![];
    assert(bits@.skip(0) =~= bits@);
    assert(done + run_lengths(bits@) =~= run_lengths(bits@));
    assert(runs@ =~= stored(done));
    while i < bits.len()
        invariant
            0 <= start < i <= bits@.len(),
            forall|k: int| start <= k < i ==> #[trigger] bits@[k] == bits@[start as int],
            runs@ == stored(done),
            run_lengths(bits@) == done + run_lengths(bits@.skip(start as int)),
        decreases bits@.len() - i,
    {
        if bits[i] != bits[start] {
            proof {
                lemma_next_run(bits@, start as int, i as int, done);
            }
            let length: usize = i - start;
            runs.push(if length < 255 { length as u8 } else { 255 });
            proof {
                done = done.push(length as nat);
                assert(runs@ =~= stored(done));
            }
            start = i;
        }
        i += 1;
    }
    proof {
        lemma_next_run(bits@, start as int, i as int, done);
        assert(bits@.skip(i as int) =~= Seq::<u8>::empty());
    }
    let length: usize = i - start;
    runs.push(if length < 255 { length as u8 } else { 255 });
    proof {
        done = done.push(length as nat);
        assert(runs@ =~= stored(done));
        assert(run_lengths(bits@) =~= done);
    }
    Some((runs, bits[0] == 1))
}

/// Closing the run `start..end` leaves the runs of what follows it.
proof fn lemma_next_run(bits: Seq<u8>, start: int, end: int, done: Seq<nat>)
    requires
        0 <= start < end <= bits.len(),
        forall|k: int| start <= k < end ==> #[trigger] bits[k] == bits[start],
        end < bits.len() ==> bits[end] != bits[start],
        run_lengths(bits) == done + run_lengths(bits.skip(start)),
    ensures
        run_lengths(bits) == done.push((end - start) as nat) + run_lengths(bits.skip(end)),
{
    let rest = bits.skip(start);
    lemma_first_run_is(rest, (end - start) as nat);
    assert(rest.skip(end - start) =~= bits.skip(end));
    assert(run_lengths(bits) =~= done.push((end - start) as nat) + run_lengths(bits.skip(end)));
}

/// The runs of a row of zeros and ones, drawn in alternating colours, are that row again, as long
/// as no run has more than 255 modules.
pub proof fn lemma_runs_draw_the_bits(bits: Seq<u8>)
    requires
        forall|k: int| 0 <= k < bits.len() ==> bits[k] == 0 || bits[k] == 1,
        forall|k: int| 0 <= k < run_lengths(bits).len() ==> run_lengths(bits)[k] <= 255,
        bits.len() > 0,
    ensures
        modules(stored(run_lengths(bits)), bits[0] == 1) == bits.map_values(|b: u8| b == 1),
    decreases bits.len(),
{
    lemma_first_run_bounds(bits);
    let n = first_run(bits);
    let rest = bits.skip(n as int);
    let lengths = run_lengths(bits);
    let runs = stored(lengths);
    assert(lengths[0] == n);
    assert(lengths.drop_first() =~= run_lengths(rest));
    assert(runs.drop_first() =~= stored(run_lengths(rest)));
    if rest.len() > 0 {
        assert forall|k: int| 0 <= k < run_lengths(rest).len() implies run_lengths(rest)[k]
            <= 255 by {
            assert(lengths[k + 1] == run_lengths(rest)[k]);
        }
        lemma_runs_draw_the_bits(rest);
        assert(bits[n as int] == rest[0]);
    } else {
        assert(run_lengths(rest) =~= seq![]);
    }
    assert(runs[0] == n);
    assert(modules(runs, bits[0] == 1) =~= bits.map_values(|b: u8| b == 1)) by {
        let tail = modules(runs.drop_first(), !(bits[0] == 1));
        assert(tail =~= rest.map_values(|b: u8| b == 1));
    }
}

/// The modules of a row are as many as its runs add up to.
pub proof fn lemma_module_count(runs: Seq<u8>, black: bool)
    ensures
        modules(runs, black).len() == module_count(runs),
    decreases runs.len(),
{
    if runs.len() > 0 {
        lemma_module_count(runs.drop_first(), !black);
        lemma_module_count_front(runs);
    }
}

proof fn lemma_module_count_front(runs: Seq<u8>)
    requires
        runs.len() > 0,
    ensures
        module_count(runs) == runs[0] + module_count(runs.drop_first()),
    decreases runs.len(),
{
    if runs.len() > 1 {
        lemma_module_count_front(runs.drop_last());
        assert(runs.drop_last().drop_first() =~= runs.drop_first().drop_last());
    } else {
        assert(runs.drop_first() =~= Seq::<u8>::empty());
        assert(runs.drop_last() =~= Seq::<u8>::empty());
    }
}

/// Rows laid end to end have the sum of their modules.
pub proof fn lemma_module_count_concat(left: Seq<u8>, right: Seq<u8>)
    ensures
        module_count(left + right) == module_count(left) + module_count(right),
    decreases right.len(),
{
    if right.len() == 0 {
        assert(left + right =~= left);
    } else {
        lemma_module_count_concat(left, right.drop_last());
        assert((left + right).drop_last() =~= left + right.drop_last());
    }
}

/// The runs of a row add up to its length, or to less where one had to be cut to 255.
pub proof fn lemma_stored_modules(bits: Seq<u8>)
    ensures
        module_count(stored(run_lengths(bits))) <= bits.len(),
        bits.len() <= 255 ==> module_count(stored(run_lengths(bits))) == bits.len(),
    decreases bits.len(),
{
    let runs = stored(run_lengths(bits));
    if bits.len() > 0 {
        lemma_first_run_bounds(bits);
        let n = first_run(bits);
        let rest = bits.skip(n as int);
        lemma_stored_modules(rest);
        assert(run_lengths(bits).drop_first() =~= run_lengths(rest));
        assert(runs.drop_first() =~= stored(run_lengths(rest)));
        lemma_module_count_front(runs);
    }
}

/// Whether the element in place `i` is followed by a different one within `limit` places.
pub open spec fn changes(bits: Seq<u8>, i: int, limit: nat) -> bool {
    exists|j: int| i < j <= i + limit && #[trigger] bits[j] != bits[i]
}

/// No run is longer than `limit` where every element is followed by a different one within so
/// many places, or by the end of the row.
pub proof fn lemma_runs_are_short(bits: Seq<u8>, limit: nat)
    requires
        forall|i: int| 0 <= i && i + limit < bits.len() ==> #[trigger] changes(bits, i, limit),
    ensures
        forall|k: int| 0 <= k < run_lengths(bits).len() ==> run_lengths(bits)[k] <= limit,
    decreases bits.len(),
{
    if bits.len() > 0 {
        lemma_first_run_bounds(bits);
        let n = first_run(bits);
        if n > limit {
            assert(changes(bits, 0, limit));
        }
        let rest = bits.skip(n as int);
        assert forall|i: int| 0 <= i && i + limit < rest.len() implies #[trigger] changes(
            rest,
            i,
            limit,
        ) by {
            assert(changes(bits, i + n, limit));
            let j = choose|j: int| i + n < j <= i + n + limit && #[trigger] bits[j] != bits[i + n];
            assert(rest[j - n] != rest[i]);
        }
        lemma_runs_are_short(rest, limit);
        assert forall|k: int| 0 <= k < run_lengths(bits).len() implies run_lengths(bits)[k]
            <= limit by {
            if k > 0 {
                assert(run_lengths(bits)[k] == run_lengths(rest)[k - 1]);
            }
        }
    }
}

/// A length is stored as it is up to 255, and as 255 beyond.
pub proof fn lemma_stored_length(lengths: Seq<nat>, k: int)
    requires
        0 <= k < lengths.len(),
    ensures
        stored(lengths).len() == lengths.len(),
        lengths[k] <= 255 ==> stored(lengths)[k] == lengths[k],
        lengths[k] > 255 ==> stored(lengths)[k] == 255,
{
}

/// A row of runs is its first run, in its colour, and then the others, of which the first has the
/// other colour.
pub proof fn lemma_colours_take_turns(run: u8, rest: Seq<u8>, black: bool, i: int)
    ensures
        modules(seq![run] + rest, black).len() == run + modules(rest, !black).len(),
        0 <= i < run ==> modules(seq![run] + rest, black)[i] == black,
        0 <= i < modules(rest, !black).len() ==> modules(seq![run] + rest, black)[run + i]
            == modules(rest, !black)[i],
{
    assert((seq![run] + rest).drop_first() =~= rest);
}

} // verus!
