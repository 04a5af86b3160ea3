//! The stats behavior: for an admin, a report of how many users completed
//! each stone piece, the chest and the gates; silence for anyone else.

use vstd::prelude::*;
use vstd::string::*;
use crate::behavior::stone::{spec_letter_bucket, storage_letter_bucket, Piece, Stage, StageSet};
use crate::storage::Storage;
use crate::text::{spec_u64_dec, u64_to_string};

verus! {

/// One piece's report line: its letter and its completion count.
pub open spec fn spec_letter_line(p: Piece, count: u64) -> Seq<char> {
    "- "@ + p.letter@ + ": "@ + spec_u64_dec(count as int) + "\n"@
}

/// The report lines of a stage's pieces, in order.
pub open spec fn spec_stage_lines(pieces: Seq<Piece>, counts: Seq<u64>) -> Seq<char>
    decreases pieces.len(),
{
    if pieces.len() == 0 {
        Seq::empty()
    } else {
        spec_stage_lines(pieces.drop_last(), counts.drop_last()) + spec_letter_line(
            pieces.last(),
            counts.last(),
        )
    }
}

/// One stage's block: its 1-based heading and its piece lines.
pub open spec fn spec_stage_block(stage: Stage, counts: Seq<u64>, idx: int) -> Seq<char> {
    "Этап "@ + spec_u64_dec(idx + 1) + ":\n"@ + spec_stage_lines(stage.pieces@, counts)
}

/// The blocks of the first `upto` stages, in order.
pub open spec fn spec_stage_blocks(
    stages: Seq<Stage>,
    counts: Seq<Seq<u64>>,
    upto: int,
) -> Seq<char>
    decreases upto,
{
    if upto <= 0 {
        Seq::empty()
    } else {
        spec_stage_blocks(stages, counts, upto - 1) + spec_stage_block(
            stages[upto - 1],
            counts[upto - 1],
            upto - 1,
        )
    }
}

/// The whole report over given counts: the stone stages, then the chest and
/// gates totals.
pub open spec fn spec_stats_report(
    st: StageSet,
    counts: Seq<Seq<u64>>,
    chest: u64,
    gates: u64,
) -> Seq<char> {
    "Камень в лесу:\n"@ + spec_stage_blocks(st.stages@, counts, st.stages@.len() as int)
        + "\nСундук: "@ + spec_u64_dec(chest as int) + "\n"@ + "\nВорота: "@ + spec_u64_dec(
        gates as int,
    )
}

/// The per-piece completion counts a store holds, stage by stage.
pub open spec fn spec_counts_of(stor: Storage, st: StageSet) -> Seq<Seq<u64>> {
    Seq::new(
        st.stages@.len(),
        |s: int|
            Seq::new(
                st.stages@[s].pieces@.len(),
                |k: int| stor.set_card(spec_letter_bucket(st.stages@[s].pieces@[k].letter@)) as u64,
            ),
    )
}

/// Renders the completion report from gathered counts.
pub fn format_stats_report(
    stages: &StageSet,
    letter_counts: &Vec<Vec<u64>>,
    chest: u64,
    gates: u64,
) -> (r: String)
    requires
        letter_counts@.len() == stages.stages@.len(),
        forall|s: int|
            0 <= s < stages.stages@.len() ==> (#[trigger] letter_counts@[s])@.len()
                == stages.stages@[s].pieces@.len(),
    ensures
        r@ == spec_stats_report(
            *stages,
            letter_counts@.map_values(|v: Vec<u64>| v@),
            chest,
            gates,
        ),
{
    let ghost counts: Seq<Seq<u64>> = letter_counts@.map_values(|v: Vec<u64>| v@);
    let mut s = String::new();
    s.append("Камень в лесу:\n");
    let ns = stages.stages.len();
    let mut i: usize = 0;
    proof {
        assert(s@ =~= "Камень в лесу:\n"@ + spec_stage_blocks(stages.stages@, counts, 0));
    }
    while i < ns
        invariant
            ns == stages.stages@.len(),
            counts == letter_counts@.map_values(|v: Vec<u64>| v@),
            counts.len() == ns,
            forall|s2: int|
                0 <= s2 < ns ==> (#[trigger] letter_counts@[s2])@.len()
                    == stages.stages@[s2].pieces@.len(),
            0 <= i <= ns,
            s@ == "Камень в лесу:\n"@ + spec_stage_blocks(stages.stages@, counts, i as int),
        decreases ns - i,
    {
        let ghost before = s@;
        s.append("Этап ");
        let num = (i as u64) + 1;
        let num_s = u64_to_string(num);
        s.append(num_s.as_str());
        s.append(":\n");
        let ghost heading = "Этап "@ + spec_u64_dec(i + 1) + ":\n"@;
        proof {
            assert(s@ =~= before + heading);
        }
        let ghost head_state = s@;
        let np = stages.stages[i].pieces.len();
        let mut k: usize = 0;
        proof {
            assert(stages.stages@[i as int].pieces@.take(0) =~= Seq::<Piece>::empty());
            assert(counts[i as int].take(0) =~= Seq::<u64>::empty());
            assert(s@ =~= head_state + spec_stage_lines(
                stages.stages@[i as int].pieces@.take(0),
                counts[i as int].take(0),
            ));
        }
        while k < np
            invariant
                ns == stages.stages@.len(),
                counts == letter_counts@.map_values(|v: Vec<u64>| v@),
                counts.len() == ns,
                0 <= i < ns,
                np == stages.stages@[i as int].pieces@.len(),
                counts[i as int].len() == np,
                0 <= k <= np,
                s@ == head_state + spec_stage_lines(
                    stages.stages@[i as int].pieces@.take(k as int),
                    counts[i as int].take(k as int),
                ),
            decreases np - k,
        {
            let ghost line_before = s@;
            s.append("- ");
            s.append(stages.stages[i].pieces[k].letter.as_str());
            s.append(": ");
            let card = letter_counts[i][k];
            let card_s = u64_to_string(card);
            s.append(card_s.as_str());
            s.append("\n");
            proof {
                let pieces = stages.stages@[i as int].pieces@;
                let cs = counts[i as int];
                assert(cs == letter_counts@[i as int]@);
                assert(card == cs[k as int]);
                assert(pieces.take(k + 1).drop_last() =~= pieces.take(k as int));
                assert(pieces.take(k + 1).last() == pieces[k as int]);
                assert(cs.take(k + 1).drop_last() =~= cs.take(k as int));
                assert(cs.take(k + 1).last() == cs[k as int]);
                assert(s@ =~= line_before + spec_letter_line(pieces[k as int], cs[k as int]));
                assert(s@ =~= head_state + spec_stage_lines(pieces.take(k + 1), cs.take(k + 1)));
            }
            k = k + 1;
        }
        proof {
            let pieces = stages.stages@[i as int].pieces@;
            let cs = counts[i as int];
            assert(pieces.take(np as int) =~= pieces);
            assert(cs.take(np as int) =~= cs);
            assert(s@ =~= before + spec_stage_block(
                stages.stages@[i as int],
                counts[i as int],
                i as int,
            ));
            assert(s@ =~= "Камень в лесу:\n"@ + spec_stage_blocks(
                stages.stages@,
                counts,
                i + 1,
            ));
        }
        i = i + 1;
    }
    s.append("\nСундук: ");
    let chest_s = u64_to_string(chest);
    s.append(chest_s.as_str());
    s.append("\n");
    s.append("\nВорота: ");
    let gates_s = u64_to_string(gates);
    s.append(gates_s.as_str());
    proof {
        assert(s@ =~= spec_stats_report(*stages, counts, chest, gates));
    }
    s
}

pub struct StatsBehavior {
    pub storage: Storage,
    pub admin_ids: Vec<i64>,
}

impl StatsBehavior {
    pub open spec fn wf(self) -> bool {
        self.storage.wf()
    }

    pub fn new(storage: Storage, admin_ids: Vec<i64>) -> (r: Self)
        ensures
            r.storage == storage,
            r.admin_ids == admin_ids,
    {
        StatsBehavior { storage, admin_ids }
    }

    /// Whether the sender may ask for the report.
    fn is_admin(&self, from_id: i64) -> (r: bool)
        ensures
            r == self.admin_ids@.contains(from_id),
    {
        let n = self.admin_ids.len();
        let mut i: usize = 0;
        while i < n
            invariant
                n == self.admin_ids@.len(),
                0 <= i <= n,
                forall|j: int| 0 <= j < i ==> self.admin_ids@[j] != from_id,
            decreases n - i,
        {
            if self.admin_ids[i] == from_id {
                return true;
            }
            i = i + 1;
        }
        false
    }

    /// Replies with the completion report to an admin; anyone else gets
    /// nothing at all.
    pub fn process_message(&self, stages: &StageSet, from_id: i64) -> (r: Option<String>)
        requires
            self.wf(),
        ensures
            r is Some <==> self.admin_ids@.contains(from_id),
            r matches Some(rep) ==> rep@ == spec_stats_report(
                *stages,
                spec_counts_of(self.storage, *stages),
                (self.storage.set_card("chest_completed_by"@) as u64),
                (self.storage.set_card("gates_completed_by"@) as u64),
            ),
    {
        if !self.is_admin(from_id) {
            return None;
        }
        let ns = stages.stages.len();
        let mut letter_counts: Vec<Vec<u64>> = Vec::new();
        let mut i: usize = 0;
        while i < ns
            invariant
                self.wf(),
                ns == stages.stages@.len(),
                0 <= i <= ns,
                letter_counts@.len() == i,
                forall|s2: int|
                    0 <= s2 < i ==> (#[trigger] letter_counts@[s2])@
                        == spec_counts_of(self.storage, *stages)[s2],
            decreases ns - i,
        {
            let np = stages.stages[i].pieces.len();
            let mut row: Vec<u64> = Vec::new();
            let mut k: usize = 0;
            while k < np
                invariant
                    self.wf(),
                    ns == stages.stages@.len(),
                    0 <= i < ns,
                    np == stages.stages@[i as int].pieces@.len(),
                    0 <= k <= np,
                    row@.len() == k,
                    forall|k2: int|
                        0 <= k2 < k ==> row@[k2] == (self.storage.set_card(
                            spec_letter_bucket(
                                (#[trigger] stages.stages@[i as int].pieces@[k2]).letter@,
                            ),
                        ) as u64),
                decreases np - k,
            {
                let bucket = storage_letter_bucket(stages.stages[i].pieces[k].letter.as_str());
                row.push(self.storage.set_len(bucket.as_str()));
                k = k + 1;
            }
            proof {
                assert(row@ =~= spec_counts_of(self.storage, *stages)[i as int]);
            }
            letter_counts.push(row);
            i = i + 1;
        }
        let chest = self.storage.set_len("chest_completed_by");
        let gates = self.storage.set_len("gates_completed_by");
        proof {
            assert(letter_counts@.map_values(|v: Vec<u64>| v@) =~= spec_counts_of(
                self.storage,
                *stages,
            ));
        }
        let report = format_stats_report(stages, &letter_counts, chest, gates);
        Some(report)
    }
}

} // verus!
