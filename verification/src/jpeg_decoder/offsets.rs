//! Phase 3: where each subsequence's symbols go.

use super::phase1_oracle::SubsequenceState;
use vstd::prelude::*;

verus! {

/// Sum of the first `i` counts.
pub open spec fn running(counts: Seq<u32>, i: nat) -> nat
    decreases i,
{
    if i == 0 || i > counts.len() {
        0
    } else {
        running(counts, (i - 1) as nat) + counts[i - 1] as nat
    }
}

/// The exclusive prefix sums and the total, if the total fits.
pub open spec fn exclusive_scan(counts: Seq<u32>) -> Option<(Seq<u32>, u32)> {
    if running(counts, counts.len()) > u32::MAX {
        None
    } else {
        Some(
            (
                Seq::new(counts.len(), |i: int| running(counts, i as nat) as u32),
                running(counts, counts.len()) as u32,
            ),
        )
    }
}

/// The symbol counts of the states.
pub open spec fn counts_of(states: Seq<SubsequenceState>) -> Seq<u32> {
    states.map_values(|s: SubsequenceState| s.n)
}

/// Running sums never fall.
pub proof fn lemma_running_grows(counts: Seq<u32>, i: nat, j: nat)
    requires
        i <= j <= counts.len(),
    ensures
        running(counts, i) <= running(counts, j),
    decreases j - i,
{
    if i < j {
        lemma_running_grows(counts, i, (j - 1) as nat);
    }
}

/// Exclusive prefix sum of the per-subsequence symbol counts: where each
/// subsequence writes its symbols, and how many there are in all.  Nothing if
/// the total does not fit 32 bits.
#[must_use]
pub fn phase3_offsets(s_info: &[SubsequenceState]) -> (r: Option<(Vec<u32>, u32)>)
    ensures
        match exclusive_scan(counts_of(s_info@)) {
            Some((offsets, total)) => r matches Some(x) && x.0@ == offsets && x.1 == total,
            None => r is None,
        },
{
    let ghost counts = counts_of(s_info@);
    let mut offsets: Vec<u32> = Vec::with_capacity(s_info.len());
    let mut total: u32 = 0;
    let mut i: usize = 0;
    while i < s_info.len()
        invariant
            i <= s_info@.len(),
            counts == counts_of(s_info@),
            offsets@ == Seq::new(i as nat, |k: int| running(counts, k as nat) as u32),
            total == running(counts, i as nat),
        decreases s_info@.len() - i,
    {
        offsets.push(total);
        let n: u32 = s_info[i].n;
        proof {
            assert(counts[i as int] == n);
            lemma_running_grows(counts, (i + 1) as nat, counts.len());
        }
        match total.checked_add(n) {
            Some(sum) => {
                total = sum;
            },
            None => {
                return None;
            },
        }
        i = i + 1;
    }
    assert(offsets@ =~= Seq::new(counts.len(), |k: int| running(counts, k as nat) as u32));
    Some((offsets, total))
}

/// The states in downloaded words, four words each.
pub open spec fn states_in(words: Seq<u32>) -> Seq<SubsequenceState> {
    Seq::new(
        words.len() / 4,
        |i: int|
            SubsequenceState {
                p: words[4 * i],
                n: words[4 * i + 1],
                c: words[4 * i + 2],
                z: words[4 * i + 3],
            },
    )
}

/// Read subsequence states from downloaded words.
#[must_use]
pub fn states_from_words(words: &[u32]) -> (states: Vec<SubsequenceState>)
    ensures
        states@ == states_in(words@),
{
    let n: usize = words.len() / 4;
    let mut states: Vec<SubsequenceState> = Vec::with_capacity(n);
    let mut i: usize = 0;
    while i < n
        invariant
            i <= n == words@.len() / 4,
            words@.len() <= usize::MAX,
            states@ == states_in(words@).take(i as int),
        decreases n - i,
    {
        states.push(
            SubsequenceState {
                p: words[4 * i],
                n: words[4 * i + 1],
                c: words[4 * i + 2],
                z: words[4 * i + 3],
            },
        );
        assert(states@ =~= states_in(words@).take(i + 1));
        i = i + 1;
    }
    assert(states@ =~= states_in(words@));
    states
}

/// The subsequences' output ranges tile the symbol stream: each begins where
/// the one before it ends, the first at 0, and the last ends at the total.
pub proof fn law_offsets_tile_the_output(counts: Seq<u32>)
    ensures
        exclusive_scan(counts) matches Some((offsets, total)) ==> {
            &&& offsets.len() == counts.len()
            &&& counts.len() == 0 ==> total == 0
            &&& counts.len() > 0 ==> offsets[0] == 0 && offsets[counts.len() - 1]
                + counts[counts.len() - 1] == total
            &&& forall|i: int|
                0 <= i < counts.len() - 1 ==> #[trigger] offsets[i] + counts[i] == offsets[i + 1]
        },
{
    if let Some((offsets, total)) = exclusive_scan(counts) {
        assert forall|i: int| 0 <= i < counts.len() implies #[trigger] offsets[i] == running(
            counts,
            i as nat,
        ) by {
            lemma_running_grows(counts, i as nat, counts.len());
        }
        assert forall|i: int| 0 <= i < counts.len() - 1 implies #[trigger] offsets[i] + counts[i]
            == offsets[i + 1] by {
            assert(offsets[i + 1] == running(counts, (i + 1) as nat));
        }
    }
}

/// States as they lie in memory: position, symbols, component, zigzag slot.
pub open spec fn state_words(states: Seq<SubsequenceState>) -> Seq<u32>
    decreases states.len(),
{
    if states.len() == 0 {
        Seq::empty()
    } else {
        let s = states.last();
        state_words(states.drop_last()) + seq![s.p, s.n, s.c, s.z]
    }
}

/// States that lie in memory are read back.
pub proof fn law_states_are_read_back(states: Seq<SubsequenceState>)
    ensures
        state_words(states).len() == 4 * states.len(),
        states_in(state_words(states)) == states,
    decreases states.len(),
{
    if states.len() > 0 {
        let init = states.drop_last();
        law_states_are_read_back(init);
        let a = state_words(init);
        let w = state_words(states);
        assert forall|i: int| 0 <= i < states.len() implies states_in(w)[i] == states[i] by {
            if i < init.len() {
                assert(states_in(a)[i] == init[i]);
                assert(w[4 * i] == a[4 * i] && w[4 * i + 1] == a[4 * i + 1] && w[4 * i + 2] == a[4
                    * i + 2] && w[4 * i + 3] == a[4 * i + 3]);
            }
        }
        assert(states_in(w) =~= states);
    } else {
        assert(states_in(state_words(states)) =~= states);
    }
}

/// Offsets are the symbols of all subsequences before, so that more symbols
/// in one of them move those behind it and no other.
pub proof fn law_offsets_add_up(counts: Seq<u32>, i: nat, k: nat, more: u32)
    requires
        i < counts.len(),
        k <= counts.len(),
        counts[i as int] <= more,
    ensures
        running(counts.update(i as int, more), k) == running(counts, k) + if i < k {
            more - counts[i as int]
        } else {
            0
        },
    decreases k,
{
    if k > 0 {
        law_offsets_add_up(counts, i, (k - 1) as nat, more);
    }
}

} // verus!
