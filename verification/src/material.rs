//! Materials, their reactions, and the resolution of a reaction between
//! two adjacent materials.

use crate::phf_range::{packed_end, packed_start};
use crate::rng::{rng_ratio, SimRng};
use vstd::prelude::*;

verus! {

/// How a material moves.
#[derive(Debug, Clone, Copy, PartialEq, Eq, Structural)]
pub enum CellMovement {
    Solid,
    Powder,
    Liquid,
    Gas,
}

impl Default for CellMovement {
    fn default() -> (movement: CellMovement)
        ensures
            movement == CellMovement::Solid,
    {
        CellMovement::Solid
    }
}

/// How a material collides.
#[derive(Debug, Clone, Copy, PartialEq, Eq, Structural)]
pub enum CellCollision {
    Solid,
    Platform,
    Liquid,
    NoCollision,
}

impl Default for CellCollision {
    fn default() -> (collision: CellCollision)
        ensures
            collision == CellCollision::Solid,
    {
        CellCollision::Solid
    }
}

/// The probability that stands for certainty: a reaction's `probability`
/// counts in units of one part in this.
pub const PROBABILITY_ONE: u32 = 0x8000_0000;

/// The most materials a table can hold: a cell has twelve bits for its
/// material index.
pub const MAX_MATERIALS: usize = 4096;

/// One way in which a material reacts with a partner.
#[derive(Debug, Clone, Copy, PartialEq, Eq, Structural)]
pub struct Reaction {
    /// Chance that the reaction fires in one trial, in units of
    /// `1 / PROBABILITY_ONE`.
    pub probability: u32,
    /// What replaces the material that owns the reaction, if anything.
    pub material_out1: Option<u32>,
    /// What replaces the partner, if anything.
    pub material_out2: Option<u32>,
}

/// A material. The simulation reads `reactions_range` and `reactions`; the
/// other fields are carried for the host.
#[derive(Debug)]
pub struct Material {
    pub display_name: String,
    pub color: (),
    pub movement: CellMovement,
    /// Bit pattern of a single-precision number.
    pub density: u32,
    /// Bit pattern of a single-precision number.
    pub durability: u32,
    pub collision: CellCollision,
    /// Bit pattern of a single-precision number.
    pub friction: u32,
    /// Bit pattern of a single-precision number.
    pub bounciness: u32,
    pub on_destroyed: (),
    /// Entry `d` is the packed range, within `reactions`, of the reactions
    /// with the material whose index is `d` above this material's own.
    pub reactions_range: Vec<u64>,
    pub reactions: Vec<Reaction>,
}

impl Clone for Material {
    fn clone(&self) -> (copy: Material)
        ensures
            copy.display_name@ == self.display_name@,
            copy.movement == self.movement,
            copy.density == self.density,
            copy.durability == self.durability,
            copy.collision == self.collision,
            copy.friction == self.friction,
            copy.bounciness == self.bounciness,
            copy.reactions_range@ == self.reactions_range@,
            copy.reactions@ == self.reactions@,
    {
        let reactions_range = self.reactions_range.clone();
        let reactions = self.reactions.clone();
        assert(reactions_range@ =~= self.reactions_range@);
        assert(reactions@ =~= self.reactions@);
        Material {
            display_name: self.display_name.clone(),
            color: (),
            movement: self.movement,
            density: self.density,
            durability: self.durability,
            collision: self.collision,
            friction: self.friction,
            bounciness: self.bounciness,
            on_destroyed: (),
            reactions_range,
            reactions,
        }
    }
}

/// What became of one trial between two adjacent materials.
#[derive(Debug, Clone, Copy, PartialEq, Eq, Structural)]
pub enum ReactionResult {
    /// The two materials never react.
    Inert,
    /// They can react, but no reaction fired in this trial.
    CouldReact,
    /// A reaction fired. Each side is replaced where a material is given.
    Reacted { material_out1: Option<u32>, material_out2: Option<u32> },
}

/// Whether an optional material index is absent or below `n`.
pub open spec fn out_below(out: Option<u32>, n: int) -> bool {
    out matches Some(m) ==> m < n
}

impl Material {
    /// The rules that a material keeps by itself: every packed range lies
    /// within the reaction list, and no probability is above one.
    pub open spec fn wf(&self) -> bool {
        &&& forall|d: int|
            0 <= d < self.reactions_range@.len() ==> packed_start(
                #[trigger] self.reactions_range@[d],
            ) <= packed_end(self.reactions_range@[d]) <= self.reactions@.len()
        &&& forall|j: int|
            0 <= j < self.reactions@.len() ==> (#[trigger] self.reactions@[j]).probability
                <= PROBABILITY_ONE
    }

    /// Whether every material that a reaction of this one produces has an
    /// index below `n`.
    pub open spec fn outputs_below(&self, n: int) -> bool {
        forall|j: int|
            0 <= j < self.reactions@.len() ==> out_below(
                (#[trigger] self.reactions@[j]).material_out1,
                n,
            ) && out_below(self.reactions@[j].material_out2, n)
    }

    /// Whether the material keeps its own rules and produces only
    /// materials of a table of `table_len` entries.
    pub fn is_valid(&self, table_len: usize) -> (valid: bool)
        ensures
            valid == (self.wf() && self.outputs_below(table_len as int)),
    {
        let mut d: usize = 0;
        while d < self.reactions_range.len()
            invariant
                d <= self.reactions_range@.len(),
                forall|i: int|
                    0 <= i < d ==> packed_start(#[trigger] self.reactions_range@[i]) <= packed_end(
                        self.reactions_range@[i],
                    ) <= self.reactions@.len(),
            decreases self.reactions_range@.len() - d,
        {
            let packed: u64 = self.reactions_range[d];
            let start: u64 = packed & 0xFFFF_FFFF;
            let end: u64 = packed >> 32u64;
            assert(end <= 0xFFFF_FFFF) by (bit_vector)
                requires
                    end == packed >> 32u64,
            ;
            if start > end || end as usize > self.reactions.len() {
                return false;
            }
            d = d + 1;
        }
        let mut j: usize = 0;
        while j < self.reactions.len()
            invariant
                j <= self.reactions@.len(),
                forall|i: int|
                    0 <= i < j ==> (#[trigger] self.reactions@[i]).probability <= PROBABILITY_ONE
                        && out_below(self.reactions@[i].material_out1, table_len as int)
                        && out_below(self.reactions@[i].material_out2, table_len as int),
            decreases self.reactions@.len() - j,
        {
            let reaction: Reaction = self.reactions[j];
            if reaction.probability > PROBABILITY_ONE {
                return false;
            }
            if let Some(m) = reaction.material_out1 {
                if m as usize >= table_len {
                    return false;
                }
            }
            if let Some(m) = reaction.material_out2 {
                if m as usize >= table_len {
                    return false;
                }
            }
            j = j + 1;
        }
        true
    }
}

/// The rules of a material table: it fits the twelve bits of a cell's
/// material index, every material keeps its own rules, and every reaction
/// produces materials of the table.
pub open spec fn valid_table(materials: Seq<Material>) -> bool {
    &&& materials.len() <= MAX_MATERIALS
    &&& forall|i: int|
        0 <= i < materials.len() ==> (#[trigger] materials[i]).wf() && materials[i].outputs_below(
            materials.len() as int,
        )
}

/// Whether a material table keeps the rules of `valid_table`.
pub fn is_valid_table(materials: &Vec<Material>) -> (valid: bool)
    ensures
        valid == valid_table(materials@),
{
    if materials.len() > MAX_MATERIALS {
        return false;
    }
    let mut i: usize = 0;
    while i < materials.len()
        invariant
            i <= materials@.len(),
            forall|k: int|
                0 <= k < i ==> (#[trigger] materials@[k]).wf() && materials@[k].outputs_below(
                    materials@.len() as int,
                ),
        decreases materials@.len() - i,
    {
        if !materials[i].is_valid(materials.len()) {
            return false;
        }
        i = i + 1;
    }
    true
}

/// The reactions that a trial between material `mat_idx1` and its
/// neighbour `mat_idx2` draws from: the material of lower index is the
/// source, and the distance between the two indices picks the range of
/// its reaction list. A distance beyond its range table gives none.
pub open spec fn candidate_reactions(
    mat_idx1: u32,
    mat_idx2: u32,
    mat1: Material,
    mat2: Material,
) -> Seq<Reaction> {
    let source = if mat_idx1 <= mat_idx2 {
        mat1
    } else {
        mat2
    };
    let distance = if mat_idx1 <= mat_idx2 {
        mat_idx2 - mat_idx1
    } else {
        mat_idx1 - mat_idx2
    };
    if distance < source.reactions_range@.len() {
        source.reactions@.subrange(
            packed_start(source.reactions_range@[distance]),
            packed_end(source.reactions_range@[distance]),
        )
    } else {
        Seq::empty()
    }
}

/// The result of a reaction that fired. Its outputs are those of the
/// source material; where the trial's first material is not the source,
/// they change sides.
pub open spec fn fired_result(reaction: Reaction, switch: bool) -> ReactionResult {
    if switch {
        ReactionResult::Reacted {
            material_out1: reaction.material_out2,
            material_out2: reaction.material_out1,
        }
    } else {
        ReactionResult::Reacted {
            material_out1: reaction.material_out1,
            material_out2: reaction.material_out2,
        }
    }
}

/// The result of a trial in which candidate `winner` was the first to
/// fire, or in which none fired.
pub open spec fn trial_result(
    candidates: Seq<Reaction>,
    winner: Option<int>,
    switch: bool,
) -> ReactionResult {
    if candidates.len() == 0 {
        ReactionResult::Inert
    } else {
        match winner {
            Some(k) => fired_result(candidates[k], switch),
            None => ReactionResult::CouldReact,
        }
    }
}

/// Whether a trial can end with `winner`. Candidates are tried in list
/// order, each against its own probability, and the first to fire wins.
/// So a winner has a probability above zero and no certain candidate
/// before it; and no candidate fires only where none is certain.
pub open spec fn can_win(candidates: Seq<Reaction>, winner: Option<int>) -> bool {
    match winner {
        Some(k) => {
            &&& 0 <= k < candidates.len()
            &&& candidates[k].probability != 0
            &&& forall|j: int| 0 <= j < k ==> (#[trigger] candidates[j]).probability != PROBABILITY_ONE
        },
        None => forall|j: int|
            0 <= j < candidates.len() ==> (#[trigger] candidates[j]).probability != PROBABILITY_ONE,
    }
}

/// Whether `result` is a result that a trial over `candidates` can have.
pub open spec fn possible_result(
    candidates: Seq<Reaction>,
    switch: bool,
    result: ReactionResult,
) -> bool {
    exists|winner: Option<int>| #[trigger]
        can_win(candidates, winner) && result == trial_result(candidates, winner, switch)
}

/// A single candidate of probability one always fires, with its own
/// outputs.
pub proof fn lemma_certain_reaction_fires(
    candidates: Seq<Reaction>,
    switch: bool,
    result: ReactionResult,
)
    requires
        candidates.len() == 1,
        candidates[0].probability == PROBABILITY_ONE,
        possible_result(candidates, switch, result),
    ensures
        result == fired_result(candidates[0], switch),
{
}

/// Candidates of probability zero never fire: the trial ends as
/// `CouldReact`, or as `Inert` where there is no candidate at all.
pub proof fn lemma_impossible_reactions_wait(
    candidates: Seq<Reaction>,
    switch: bool,
    result: ReactionResult,
)
    requires
        forall|j: int| 0 <= j < candidates.len() ==> (#[trigger] candidates[j]).probability == 0,
        possible_result(candidates, switch, result),
    ensures
        candidates.len() > 0 ==> result == ReactionResult::CouldReact,
        candidates.len() == 0 ==> result == ReactionResult::Inert,
{
}

/// The result of a trial over `reactions[start..end]`, given which of
/// them was the first to fire: `winner` counts from `start`.
pub fn reaction_outcome(
    reactions: &Vec<Reaction>,
    start: usize,
    end: usize,
    winner: Option<usize>,
    switch: bool,
) -> (result: ReactionResult)
    requires
        start <= end <= reactions@.len(),
        winner matches Some(k) ==> k < end - start,
    ensures
        result == trial_result(
            reactions@.subrange(start as int, end as int),
            match winner {
                Some(k) => Some(k as int),
                None => None,
            },
            switch,
        ),
{
    if start == end {
        return ReactionResult::Inert;
    }
    match winner {
        Some(k) => {
            let reaction: Reaction = reactions[start + k];
            if switch {
                ReactionResult::Reacted {
                    material_out1: reaction.material_out2,
                    material_out2: reaction.material_out1,
                }
            } else {
                ReactionResult::Reacted {
                    material_out1: reaction.material_out1,
                    material_out2: reaction.material_out2,
                }
            }
        },
        None => ReactionResult::CouldReact,
    }
}

/// Tries `reactions[start..end]` in order, each against its probability,
/// and returns the first that fires, counted from `start`.
fn first_fired(reactions: &Vec<Reaction>, start: usize, end: usize, rng: &mut SimRng) -> (winner:
    Option<usize>)
    requires
        start <= end <= reactions@.len(),
        forall|j: int|
            0 <= j < reactions@.len() ==> (#[trigger] reactions@[j]).probability <= PROBABILITY_ONE,
    ensures
        winner matches Some(k) ==> k < end - start,
        can_win(
            reactions@.subrange(start as int, end as int),
            match winner {
                Some(k) => Some(k as int),
                None => None,
            },
        ),
        start == end ==> *final(rng) == *old(rng),
{
    let ghost candidates = reactions@.subrange(start as int, end as int);
    if start == end {
        return None;
    }
    let mut k: usize = start;
    while k < end
        invariant
            start <= k <= end <= reactions@.len(),
            candidates == reactions@.subrange(start as int, end as int),
            forall|j: int|
                0 <= j < reactions@.len() ==> (#[trigger] reactions@[j]).probability
                    <= PROBABILITY_ONE,
            forall|j: int| 0 <= j < k - start ==> (#[trigger] candidates[j]).probability != PROBABILITY_ONE,
        decreases end - k,
    {
        let probability: u32 = reactions[k].probability;
        assert(candidates[k - start] == reactions@[k as int]);
        if rng_ratio(rng, probability, PROBABILITY_ONE) {
            return Some(k - start);
        }
        k = k + 1;
    }
    None
}

/// One trial between two adjacent materials, `mat1` of index `mat_idx1`
/// and its neighbour `mat2` of index `mat_idx2`.
///
/// The material of lower index is the source of the reactions, and the
/// distance between the two indices picks the range of its reaction list.
/// Each reaction of that range is tried in order against its probability,
/// and the first to fire gives the result; `material_out1` is then what
/// replaces `mat1`. Where the range holds no reaction, nothing is drawn
/// from the generator.
pub fn reactions_between(
    mat_idx1: u32,
    mat_idx2: u32,
    mat1: &Material,
    mat2: &Material,
    rng: &mut SimRng,
) -> (result: ReactionResult)
    requires
        mat1.wf(),
        mat2.wf(),
    ensures
        possible_result(
            candidate_reactions(mat_idx1, mat_idx2, *mat1, *mat2),
            mat_idx1 > mat_idx2,
            result,
        ),
        candidate_reactions(mat_idx1, mat_idx2, *mat1, *mat2).len() == 0 ==> *final(rng) == *old(
            rng,
        ),
{
    let (mat, distance, switch) = if mat_idx1 <= mat_idx2 {
        (mat1, mat_idx2 - mat_idx1, false)
    } else {
        (mat2, mat_idx1 - mat_idx2, true)
    };
    let ghost candidates = candidate_reactions(mat_idx1, mat_idx2, *mat1, *mat2);
    if distance as usize >= mat.reactions_range.len() {
        assert(can_win(candidates, None::<int>));
        assert(ReactionResult::Inert == trial_result(candidates, None::<int>, switch));
        return ReactionResult::Inert;
    }
    let packed: u64 = mat.reactions_range[distance as usize];
    let start64: u64 = packed & 0xFFFF_FFFF;
    let end64: u64 = packed >> 32u64;
    assert(end64 <= 0xFFFF_FFFF) by (bit_vector)
        requires
            end64 == packed >> 32u64,
    ;
    let start: usize = start64 as usize;
    let end: usize = end64 as usize;
    let winner = first_fired(&mat.reactions, start, end, rng);
    let ghost spec_winner = match winner {
        Some(k) => Some(k as int),
        None => None,
    };
    let result = reaction_outcome(&mat.reactions, start, end, winner, switch);
    assert(can_win(candidates, spec_winner) && result == trial_result(
        candidates,
        spec_winner,
        switch,
    ));
    result
}

} // verus!
