//! The stone challenge: the staged puzzle. Each stage requires a set of
//! pieces, each piece recognized by a reference fingerprint. A user's
//! submissions fill the per-piece membership sets; when every piece of the
//! user's stage is satisfied, the stage advances exactly once.

use vstd::prelude::*;
use vstd::string::*;
use crate::img_match::{spec_matches, ImageMatcher, HAMMING_TOLERANCE, MAX_FINGERPRINT_LEN};
use crate::storage::{
    spec_count_containing, spec_names_contain, spec_same_views, Storage,
};
use crate::text::{spec_u64_dec, u64_to_string};

verus! {

/// The durable key of the per-user stage counter table.
pub const STORAGE_STAGE_HASH: &'static str = "stone_stage";

/// One required piece: its letter (naming its membership set), its
/// reference fingerprint and its extra matching tolerance.
pub struct Piece {
    pub letter: String,
    pub fingerprint: Vec<u8>,
    pub tolerance_inc: u64,
}

/// One stage: its non-empty pieces and its two replies.
pub struct Stage {
    pub pieces: Vec<Piece>,
    pub completion_text: String,
    pub wrong_stage_text: String,
}

/// The whole staged configuration, fixed at construction.
pub struct StageSet {
    pub stages: Vec<Stage>,
}

/// The durable key of a piece's membership set.
pub open spec fn spec_letter_bucket(letter: Seq<char>) -> Seq<char> {
    "letter_"@ + letter
}

/// Builds the durable key of a piece's membership set.
pub fn storage_letter_bucket(letter: &str) -> (r: String)
    ensures
        r@ == spec_letter_bucket(letter@),
{
    let mut r = String::new();
    r.append("letter_");
    r.append(letter);
    proof {
        assert(r@ =~= spec_letter_bucket(letter@));
    }
    r
}

/// `fp` matches the piece's reference fingerprint at its tolerance.
pub open spec fn spec_piece_match(p: Piece, fp: Seq<u8>) -> bool {
    spec_matches(p.fingerprint@, fp, HAMMING_TOLERANCE + p.tolerance_inc)
}

/// Some fingerprint among `fps` matches the piece.
pub open spec fn spec_any_match(p: Piece, fps: Seq<Vec<u8>>) -> bool {
    exists|i: int| 0 <= i < fps.len() && spec_piece_match(p, (#[trigger] fps[i])@)
}

/// Some fingerprint matches some piece of the stage.
pub open spec fn spec_stage_match(stage: Stage, fps: Seq<Vec<u8>>) -> bool {
    exists|k: int| 0 <= k < stage.pieces@.len() && spec_any_match(#[trigger] stage.pieces@[k], fps)
}

/// Some fingerprint matches a piece of a stage other than `player`'s.
pub open spec fn spec_has_foreign_match(st: StageSet, player: int, fps: Seq<Vec<u8>>) -> bool {
    exists|s: int|
        0 <= s < st.stages@.len() && s != player && spec_stage_match(#[trigger] st.stages@[s], fps)
}

/// `n` names the bucket of a piece of `stage` that some fingerprint matches.
pub open spec fn spec_matched_bucket(stage: Stage, fps: Seq<Vec<u8>>, n: Seq<char>) -> bool {
    exists|k: int|
        0 <= k < stage.pieces@.len() && spec_any_match(#[trigger] stage.pieces@[k], fps) && n
            == spec_letter_bucket(stage.pieces@[k].letter@)
}

/// How many of the stage's pieces the user has satisfied in store `stor`.
pub open spec fn spec_satisfied_count(stor: Storage, pieces: Seq<Piece>, u: i64) -> int
    decreases pieces.len(),
{
    if pieces.len() == 0 {
        0
    } else {
        (if stor.set_members(spec_letter_bucket(pieces[0].letter@)).contains(u) {
            1int
        } else {
            0int
        }) + spec_satisfied_count(stor, pieces.drop_first(), u)
    }
}

impl StageSet {
    /// Valid configuration: a representable stage count, and each stage
    /// non-empty with fingerprints and tolerances in matching range.
    pub open spec fn wf(self) -> bool {
        &&& self.stages@.len() <= i64::MAX
        &&& forall|s: int|
            0 <= s < self.stages@.len() ==> (#[trigger] self.stages@[s]).pieces@.len() >= 1
        &&& forall|s: int, k: int|
            #![trigger self.stages@[s].pieces@[k]]
            0 <= s < self.stages@.len() && 0 <= k < self.stages@[s].pieces@.len() ==> {
                &&& self.stages@[s].pieces@[k].fingerprint@.len() <= MAX_FINGERPRINT_LEN
                &&& self.stages@[s].pieces@[k].tolerance_inc <= u64::MAX - HAMMING_TOLERANCE
            }
    }

    /// Checks the configuration, deciding exactly `wf`.
    pub fn check_valid(&self) -> (r: bool)
        ensures
            r == self.wf(),
    {
        let ns = self.stages.len();
        if !(ns as u64 <= i64::MAX as u64) {
            return false;
        }
        let mut s: usize = 0;
        while s < ns
            invariant
                ns == self.stages@.len(),
                0 <= s <= ns,
                forall|s2: int|
                    0 <= s2 < s ==> (#[trigger] self.stages@[s2]).pieces@.len() >= 1,
                forall|s2: int, k: int|
                    #![trigger self.stages@[s2].pieces@[k]]
                    0 <= s2 < s && 0 <= k < self.stages@[s2].pieces@.len() ==> {
                        &&& self.stages@[s2].pieces@[k].fingerprint@.len() <= MAX_FINGERPRINT_LEN
                        &&& self.stages@[s2].pieces@[k].tolerance_inc <= u64::MAX
                            - HAMMING_TOLERANCE
                    },
            decreases ns - s,
        {
            let np = self.stages[s].pieces.len();
            if np == 0 {
                return false;
            }
            let mut k: usize = 0;
            while k < np
                invariant
                    ns == self.stages@.len(),
                    0 <= s < ns,
                    np == self.stages@[s as int].pieces@.len(),
                    0 <= k <= np,
                    forall|k2: int|
                        0 <= k2 < k ==> {
                            &&& (#[trigger] self.stages@[s as int].pieces@[k2]).fingerprint@.len()
                                <= MAX_FINGERPRINT_LEN
                            &&& self.stages@[s as int].pieces@[k2].tolerance_inc <= u64::MAX
                                - HAMMING_TOLERANCE
                        },
                decreases np - k,
            {
                let p = &self.stages[s].pieces[k];
                if !(p.fingerprint.len() as u64 <= MAX_FINGERPRINT_LEN) {
                    return false;
                }
                if !(p.tolerance_inc <= u64::MAX - HAMMING_TOLERANCE) {
                    return false;
                }
                k = k + 1;
            }
            s = s + 1;
        }
        true
    }
}

/// Whether some fingerprint among `fps` matches `piece`.
fn any_fp_matches(piece: &Piece, fps: &Vec<Vec<u8>>) -> (r: bool)
    requires
        piece.fingerprint@.len() <= MAX_FINGERPRINT_LEN,
        piece.tolerance_inc <= u64::MAX - HAMMING_TOLERANCE,
    ensures
        r == spec_any_match(*piece, fps@),
{
    let n = fps.len();
    let mut i: usize = 0;
    while i < n
        invariant
            n == fps@.len(),
            0 <= i <= n,
            piece.fingerprint@.len() <= MAX_FINGERPRINT_LEN,
            piece.tolerance_inc <= u64::MAX - HAMMING_TOLERANCE,
            forall|j: int| 0 <= j < i ==> !spec_piece_match(*piece, (#[trigger] fps@[j])@),
        decreases n - i,
    {
        if ImageMatcher::matches(
            piece.fingerprint.as_slice(),
            fps[i].as_slice(),
            piece.tolerance_inc,
        ) {
            return true;
        }
        i = i + 1;
    }
    false
}

/// Whether some fingerprint matches some piece of `stage`.
fn stage_has_match(stage: &Stage, fps: &Vec<Vec<u8>>) -> (r: bool)
    requires
        forall|k: int|
            0 <= k < stage.pieces@.len() ==> {
                &&& (#[trigger] stage.pieces@[k]).fingerprint@.len() <= MAX_FINGERPRINT_LEN
                &&& stage.pieces@[k].tolerance_inc <= u64::MAX - HAMMING_TOLERANCE
            },
    ensures
        r == spec_stage_match(*stage, fps@),
{
    let n = stage.pieces.len();
    let mut k: usize = 0;
    while k < n
        invariant
            n == stage.pieces@.len(),
            0 <= k <= n,
            forall|k2: int|
                0 <= k2 < n ==> {
                    &&& (#[trigger] stage.pieces@[k2]).fingerprint@.len() <= MAX_FINGERPRINT_LEN
                    &&& stage.pieces@[k2].tolerance_inc <= u64::MAX - HAMMING_TOLERANCE
                },
            forall|k2: int| 0 <= k2 < k ==> !spec_any_match(#[trigger] stage.pieces@[k2], fps@),
        decreases n - k,
    {
        if any_fp_matches(&stage.pieces[k], fps) {
            return true;
        }
        k = k + 1;
    }
    false
}

/// Whether some fingerprint matches a piece of a stage other than `player`'s.
pub fn has_foreign_match(st: &StageSet, player: usize, fps: &Vec<Vec<u8>>) -> (r: bool)
    requires
        st.wf(),
    ensures
        r == spec_has_foreign_match(*st, player as int, fps@),
{
    let n = st.stages.len();
    let mut s: usize = 0;
    while s < n
        invariant
            st.wf(),
            n == st.stages@.len(),
            0 <= s <= n,
            forall|s2: int|
                0 <= s2 < s && s2 != player ==> !spec_stage_match(
                    #[trigger] st.stages@[s2],
                    fps@,
                ),
        decreases n - s,
    {
        if s != player {
            if stage_has_match(&st.stages[s], fps) {
                return true;
            }
        }
        s = s + 1;
    }
    false
}

/// A name sequence extended by one name covers exactly one more name.
proof fn lemma_names_contain_push(names: Seq<String>, b: String, n: Seq<char>)
    ensures
        spec_names_contain(names.push(b), n) <==> (spec_names_contain(names, n) || b@ == n),
{
    if spec_names_contain(names.push(b), n) {
        let k = choose|k: int| 0 <= k < names.push(b).len() && (#[trigger] names.push(b)[k])@ == n;
        if k < names.len() {
            assert(names[k]@ == n);
        }
    }
    if spec_names_contain(names, n) {
        let k = choose|k: int| 0 <= k < names.len() && (#[trigger] names[k])@ == n;
        assert(names.push(b)[k]@ == n);
    }
    if b@ == n {
        assert(names.push(b)[names.len() as int]@ == n);
    }
}

/// The buckets of the stage's pieces, in piece order.
pub fn build_required_buckets(stage: &Stage) -> (r: Vec<String>)
    ensures
        r@.len() == stage.pieces@.len(),
        forall|k: int|
            0 <= k < stage.pieces@.len() ==> (#[trigger] r@[k])@ == spec_letter_bucket(
                stage.pieces@[k].letter@,
            ),
{
    let n = stage.pieces.len();
    let mut out: Vec<String> = Vec::new();
    let mut k: usize = 0;
    while k < n
        invariant
            n == stage.pieces@.len(),
            0 <= k <= n,
            out@.len() == k,
            forall|k2: int|
                0 <= k2 < k ==> (#[trigger] out@[k2])@ == spec_letter_bucket(
                    stage.pieces@[k2].letter@,
                ),
        decreases n - k,
    {
        out.push(storage_letter_bucket(stage.pieces[k].letter.as_str()));
        k = k + 1;
    }
    out
}

/// The buckets of the stage's pieces that some fingerprint matches.
pub fn build_matched_buckets(stage: &Stage, fps: &Vec<Vec<u8>>) -> (r: Vec<String>)
    requires
        forall|k: int|
            0 <= k < stage.pieces@.len() ==> {
                &&& (#[trigger] stage.pieces@[k]).fingerprint@.len() <= MAX_FINGERPRINT_LEN
                &&& stage.pieces@[k].tolerance_inc <= u64::MAX - HAMMING_TOLERANCE
            },
    ensures
        forall|n: Seq<char>|
            spec_names_contain(r@, n) <==> spec_matched_bucket(*stage, fps@, n),
{
    let np = stage.pieces.len();
    let mut out: Vec<String> = Vec::new();
    let mut k: usize = 0;
    while k < np
        invariant
            np == stage.pieces@.len(),
            0 <= k <= np,
            forall|k2: int|
                0 <= k2 < np ==> {
                    &&& (#[trigger] stage.pieces@[k2]).fingerprint@.len() <= MAX_FINGERPRINT_LEN
                    &&& stage.pieces@[k2].tolerance_inc <= u64::MAX - HAMMING_TOLERANCE
                },
            forall|n: Seq<char>|
                spec_names_contain(out@, n) <==> exists|k2: int|
                    0 <= k2 < k && spec_any_match(#[trigger] stage.pieces@[k2], fps@) && n
                        == spec_letter_bucket(stage.pieces@[k2].letter@),
        decreases np - k,
    {
        let ghost before = out@;
        if any_fp_matches(&stage.pieces[k], fps) {
            let b = storage_letter_bucket(stage.pieces[k].letter.as_str());
            out.push(b);
            proof {
                assert forall|n: Seq<char>| spec_names_contain(out@, n) implies exists|k2: int|
                    0 <= k2 < k + 1 && spec_any_match(#[trigger] stage.pieces@[k2], fps@) && n
                        == spec_letter_bucket(stage.pieces@[k2].letter@) by {
                    lemma_names_contain_push(before, out@.last(), n);
                    if spec_names_contain(before, n) {
                        let k2 = choose|k2: int|
                            0 <= k2 < k && spec_any_match(#[trigger] stage.pieces@[k2], fps@) && n
                                == spec_letter_bucket(stage.pieces@[k2].letter@);
                        assert(0 <= k2 < k + 1 && spec_any_match(stage.pieces@[k2], fps@) && n
                            == spec_letter_bucket(stage.pieces@[k2].letter@));
                    } else {
                        assert(n == spec_letter_bucket(stage.pieces@[k as int].letter@));
                        assert(spec_any_match(stage.pieces@[k as int], fps@));
                    }
                }
                assert forall|n: Seq<char>|
                    (exists|k2: int|
                        0 <= k2 < k + 1 && spec_any_match(#[trigger] stage.pieces@[k2], fps@) && n
                            == spec_letter_bucket(
                            stage.pieces@[k2].letter@,
                        )) implies spec_names_contain(out@, n) by {
                    let k2 = choose|k2: int|
                        0 <= k2 < k + 1 && spec_any_match(#[trigger] stage.pieces@[k2], fps@) && n
                            == spec_letter_bucket(stage.pieces@[k2].letter@);
                    lemma_names_contain_push(before, out@.last(), n);
                    if k2 < k {
                        assert(spec_names_contain(before, n));
                    } else {
                        assert(out@.last()@ == n);
                    }
                }
            }
        } else {
            proof {
                assert forall|n: Seq<char>|
                    spec_names_contain(out@, n) <==> exists|k2: int|
                        0 <= k2 < k + 1 && spec_any_match(#[trigger] stage.pieces@[k2], fps@) && n
                            == spec_letter_bucket(stage.pieces@[k2].letter@) by {
                    if spec_names_contain(out@, n) {
                        let k2 = choose|k2: int|
                            0 <= k2 < k && spec_any_match(#[trigger] stage.pieces@[k2], fps@) && n
                                == spec_letter_bucket(stage.pieces@[k2].letter@);
                        assert(0 <= k2 < k + 1 && spec_any_match(stage.pieces@[k2], fps@) && n
                            == spec_letter_bucket(stage.pieces@[k2].letter@));
                    }
                    if exists|k2: int|
                        0 <= k2 < k + 1 && spec_any_match(#[trigger] stage.pieces@[k2], fps@) && n
                            == spec_letter_bucket(stage.pieces@[k2].letter@) {
                        let k2 = choose|k2: int|
                            0 <= k2 < k + 1 && spec_any_match(#[trigger] stage.pieces@[k2], fps@)
                                && n == spec_letter_bucket(stage.pieces@[k2].letter@);
                        assert(k2 != k);
                        assert(spec_names_contain(out@, n));
                    }
                }
            }
        }
        k = k + 1;
    }
    out
}

/// The satisfied count depends on the membership sets alone.
proof fn lemma_satisfied_same_sets(a: Storage, b: Storage, pieces: Seq<Piece>, u: i64)
    requires
        forall|n: Seq<char>| #[trigger] b.set_members(n) == a.set_members(n),
    ensures
        spec_satisfied_count(b, pieces, u) == spec_satisfied_count(a, pieces, u),
    decreases pieces.len(),
{
    if pieces.len() != 0 {
        lemma_satisfied_same_sets(a, b, pieces.drop_first(), u);
    }
}

/// Counting membership bucket-wise equals counting it piece-wise.
proof fn lemma_count_matches_satisfied(stor: Storage, names: Seq<String>, pieces: Seq<Piece>, u: i64)
    requires
        names.len() == pieces.len(),
        forall|k: int|
            0 <= k < pieces.len() ==> (#[trigger] names[k])@ == spec_letter_bucket(
                pieces[k].letter@,
            ),
    ensures
        spec_count_containing(stor, names, u) == spec_satisfied_count(stor, pieces, u),
    decreases names.len(),
{
    if names.len() == 0 {
    } else {
        assert forall|k: int| 0 <= k < pieces.drop_first().len() implies (#[trigger] names.drop_first()[k])@
            == spec_letter_bucket(pieces.drop_first()[k].letter@) by {
            assert(names.drop_first()[k] == names[k + 1]);
            assert(pieces.drop_first()[k] == pieces[k + 1]);
        }
        lemma_count_matches_satisfied(stor, names.drop_first(), pieces.drop_first(), u);
    }
}

/// What the stone behavior decides for one message.
#[derive(Debug, PartialEq)]
pub enum StoneAction {
    /// The user has finished every stage (or the stored stage is out of
    /// range): nothing to do, no reply.
    Inert,
    /// Some attachment matches a piece of another stage: reply with the
    /// current stage's hint and record nothing.
    WrongStage { reply: String },
    /// Pieces were recorded but the stage is not complete: reply with the
    /// satisfied/required fraction.
    Progress { matched: usize, required: usize, reply: String },
    /// The stage is now complete: the stage counter advanced by one and the
    /// completion reply (with its picture) is owed.
    Completed { stage: usize, reply: String },
}

pub struct StoneBehavior {
    pub storage: Storage,
    pub stages: StageSet,
}

impl StoneBehavior {
    pub open spec fn wf(self) -> bool {
        self.storage.wf() && self.stages.wf()
    }

    pub fn new(storage: Storage, stages: StageSet) -> (r: Self)
        ensures
            r.storage == storage,
            r.stages == stages,
    {
        StoneBehavior { storage, stages }
    }

    /// Runs one message through the stage machine, from the fingerprints of
    /// its reachable attachments. The user's stage never decreases, pieces
    /// are recorded only on a clean same-stage submission, and the stage
    /// advances exactly when every required piece is satisfied afterwards.
    pub fn process_message(&mut self, from_id: i64, fingerprints: &Vec<Vec<u8>>) -> (r: StoneAction)
        requires
            old(self).wf(),
        ensures
            final(self).wf(),
            final(self).stages == old(self).stages,
            final(self).storage.hash_val(STORAGE_STAGE_HASH@, from_id) >= old(self).storage.hash_val(STORAGE_STAGE_HASH@, from_id),
            ({
                let pst = old(self).storage.hash_val(STORAGE_STAGE_HASH@, from_id);
                let nstages = old(self).stages.stages@.len();
                &&& (pst < 0 || pst >= nstages) ==> r == StoneAction::Inert && spec_same_views(
                    old(self).storage,
                    final(self).storage,
                )
                &&& (0 <= pst < nstages && spec_has_foreign_match(
                    old(self).stages,
                    pst as int,
                    fingerprints@,
                )) ==> r == (StoneAction::WrongStage {
                    reply: old(self).stages.stages@[pst as int].wrong_stage_text,
                }) && spec_same_views(old(self).storage, final(self).storage)
                &&& (0 <= pst < nstages && !spec_has_foreign_match(
                    old(self).stages,
                    pst as int,
                    fingerprints@,
                )) ==> ({
                    let stage = old(self).stages.stages@[pst as int];
                    let sat = spec_satisfied_count(final(self).storage, stage.pieces@, from_id);
                    let req = stage.pieces@.len();
                    &&& forall|n: Seq<char>|
                        spec_matched_bucket(stage, fingerprints@, n) ==> #[trigger] final(self).storage.set_members(n) == old(self).storage.set_members(n).insert(
                            from_id,
                        )
                    &&& forall|n: Seq<char>|
                        !spec_matched_bucket(stage, fingerprints@, n) ==> #[trigger] final(self).storage.set_members(n) == old(self).storage.set_members(n)
                    &&& forall|n2: Seq<char>, f: i64|
                        n2 != STORAGE_STAGE_HASH@ || f != from_id ==> #[trigger] final(self).storage.hash_val(n2, f) == old(self).storage.hash_val(n2, f)
                    &&& (sat == req) ==> r == (StoneAction::Completed {
                        stage: pst as usize,
                        reply: stage.completion_text,
                    }) && final(self).storage.hash_val(STORAGE_STAGE_HASH@, from_id) == pst + 1
                    &&& (sat != req) ==> (r matches StoneAction::Progress {
                        matched,
                        required,
                        reply,
                    } && matched == sat && required == req && reply@ == spec_u64_dec(sat) + "/"@
                        + spec_u64_dec(req as int) && final(self).storage.hash_val(
                        STORAGE_STAGE_HASH@,
                        from_id,
                    ) == pst)
                })
            }),
    {
        let stage_read = self.storage.hash_incr(STORAGE_STAGE_HASH, from_id, 0);
        let player_stage: i64 = match stage_read {
            Ok(v) => v,
            Err(_) => {
                proof {
                    assert(false);
                }
                0
            },
        };
        let nstages = self.stages.stages.len();
        if player_stage < 0 || player_stage >= nstages as i64 {
            return StoneAction::Inert;
        }
        let ps = player_stage as usize;
        if has_foreign_match(&self.stages, ps, fingerprints) {
            let reply = self.stages.stages[ps].wrong_stage_text.clone();
            return StoneAction::WrongStage { reply };
        }
        let buckets_should_match = build_required_buckets(&self.stages.stages[ps]);
        let buckets_matched = build_matched_buckets(&self.stages.stages[ps], fingerprints);
        let ghost pre = *self;
        let total = self.storage.sets_add_and_count_containing(
            &buckets_matched,
            &buckets_should_match,
            from_id,
        );
        proof {
            lemma_count_matches_satisfied(
                self.storage,
                buckets_should_match@,
                self.stages.stages@[ps as int].pieces@,
                from_id,
            );
            assert(total == spec_satisfied_count(
                self.storage,
                self.stages.stages@[ps as int].pieces@,
                from_id,
            ));
        }
        let required = buckets_should_match.len();
        if total == required {
            let ghost mid = *self;
            let advance = self.storage.hash_incr(STORAGE_STAGE_HASH, from_id, 1);
            proof {
                assert(mid.storage.hash_val(STORAGE_STAGE_HASH@, from_id) == player_stage);
                assert(advance is Ok);
                lemma_satisfied_same_sets(
                    mid.storage,
                    self.storage,
                    self.stages.stages@[ps as int].pieces@,
                    from_id,
                );
            }
            let reply = self.stages.stages[ps].completion_text.clone();
            StoneAction::Completed { stage: ps, reply }
        } else {
            let mut reply = u64_to_string(total as u64);
            reply.append("/");
            let req_s = u64_to_string(required as u64);
            reply.append(req_s.as_str());
            proof {
                assert(reply@ =~= spec_u64_dec(total as int) + "/"@ + spec_u64_dec(
                    required as int,
                ));
            }
            StoneAction::Progress { matched: total, required, reply }
        }
    }
}

/// Law: a completed stage advances exactly once. After a clean submission
/// completes stage `player` and the user moves to the next stage, the very
/// same fingerprints now match a piece of a foreign stage (the one just
/// completed), so by the contract of `process_message` a re-delivery either
/// finds the user inert or takes the wrong-stage branch: it records nothing
/// and cannot advance the stage again.
pub proof fn lemma_advance_exactly_once(st: StageSet, player: int, fps: Seq<Vec<u8>>)
    requires
        0 <= player < st.stages@.len(),
        !spec_has_foreign_match(st, player, fps),
        exists|k: int|
            0 <= k < st.stages@[player].pieces@.len() && spec_any_match(
                #[trigger] st.stages@[player].pieces@[k],
                fps,
            ),
    ensures
        player + 1 < st.stages@.len() ==> spec_has_foreign_match(st, player + 1, fps),
{
    if player + 1 < st.stages@.len() {
        assert(spec_stage_match(st.stages@[player], fps));
        assert(spec_has_foreign_match(st, player + 1, fps));
    }
}

} // verus!
