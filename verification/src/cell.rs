//! The 32-bit cell word and its fields.
//!
//! | bits  | field                         |
//! |-------|-------------------------------|
//! | 0–11  | material index                |
//! | 12    | updated flag                  |
//! | 13    | active flag                   |
//! | 14–15 | reserved                      |
//! | 16–23 | shade / velocity x (payload)  |
//! | 24–31 | color / velocity y (payload)  |

use crate::material::Material;
use vstd::prelude::*;

verus! {

pub const MATERIAL_MASK: u32 = 0xFFF;

pub const UPDATED_SHIFT: u32 = 12;

pub const UPDATED_MASK: u32 = 0x1000;

pub const ACTIVE_SHIFT: u32 = 13;

pub const CELL_ACTIVE_MASK: u32 = 0x2000;

pub const COLOR_SHIFT: u32 = 24;

pub const COLOR_MASK: u32 = 0xFF00_0000;

/// The fields of a cell word, taken apart.
pub struct CellFields {
    pub material: u32,
    pub updated: bool,
    pub active: bool,
    pub reserved: u32,
    pub shade: u32,
    pub color: u8,
}

/// The decoding of a cell word. `updated` is the raw flag bit; whether a
/// cell counts as updated depends on the generation it is read in, see
/// [`is_updated_in`].
pub open spec fn cell_fields(word: u32) -> CellFields {
    CellFields {
        material: word & 0xFFF,
        updated: word & 0x1000 != 0,
        active: word & 0x2000 != 0,
        reserved: (word >> 14) & 0x3,
        shade: (word >> 16) & 0xFF,
        color: (word >> 24) as u8,
    }
}

/// A cell counts as updated in a generation when its flag bit equals the
/// generation's reference flag.
pub open spec fn is_updated_in(word: u32, generation: bool) -> bool {
    cell_fields(word).updated == generation
}

/// The word `word` with `material` as its material index.
pub open spec fn with_material(word: u32, material: u32) -> u32 {
    (word & !MATERIAL_MASK) | (material & MATERIAL_MASK)
}

/// The word `word` marked as updated in `generation`.
pub open spec fn with_updated(word: u32, generation: bool) -> u32 {
    if generation {
        word | UPDATED_MASK
    } else {
        word & !UPDATED_MASK
    }
}

/// The word `word` with its active flag set or cleared.
pub open spec fn with_active(word: u32, active: bool) -> u32 {
    if active {
        word | CELL_ACTIVE_MASK
    } else {
        word & !CELL_ACTIVE_MASK
    }
}

/// Two words with the same fields are the same word.
pub proof fn lemma_fields_determine_word(a: u32, b: u32)
    requires
        cell_fields(a) == cell_fields(b),
    ensures
        a == b,
{
    assert(a == b) by (bit_vector)
        requires
            a & 0xFFF == b & 0xFFF,
            (a & 0x1000 != 0) == (b & 0x1000 != 0),
            (a & 0x2000 != 0) == (b & 0x2000 != 0),
            (a >> 14) & 0x3 == (b >> 14) & 0x3,
            (a >> 16) & 0xFF == (b >> 16) & 0xFF,
            (a >> 24) as u8 == (b >> 24) as u8,
    ;
}

/// Storing a material index changes the material field to the low
/// twelve bits of the index, and no other field.
pub proof fn lemma_with_material(word: u32, material: u32)
    ensures
        cell_fields(with_material(word, material)) == (CellFields {
            material: material & MATERIAL_MASK,
            ..cell_fields(word)
        }),
        material <= MATERIAL_MASK ==> material & MATERIAL_MASK == material,
{
    let r = with_material(word, material);
    assert({
        &&& r & 0xFFF == material & 0xFFF
        &&& (r & 0x1000 != 0) == (word & 0x1000 != 0)
        &&& (r & 0x2000 != 0) == (word & 0x2000 != 0)
        &&& (r >> 14) & 0x3 == (word >> 14) & 0x3
        &&& (r >> 16) & 0xFF == (word >> 16) & 0xFF
        &&& (r >> 24) as u8 == (word >> 24) as u8
        &&& (material <= 0xFFF ==> material & 0xFFF == material)
    }) by (bit_vector)
        requires
            r == (word & !0xFFFu32) | (material & 0xFFF),
    ;
}

/// Marking a word as updated changes its updated flag, and no other
/// field.
pub proof fn lemma_with_updated(word: u32, generation: bool)
    ensures
        cell_fields(with_updated(word, generation)) == (CellFields {
            updated: generation,
            ..cell_fields(word)
        }),
{
    let r = with_updated(word, generation);
    assert({
        &&& r & 0xFFF == word & 0xFFF
        &&& (r & 0x1000 != 0) == generation
        &&& (r & 0x2000 != 0) == (word & 0x2000 != 0)
        &&& (r >> 14) & 0x3 == (word >> 14) & 0x3
        &&& (r >> 16) & 0xFF == (word >> 16) & 0xFF
        &&& (r >> 24) as u8 == (word >> 24) as u8
    }) by (bit_vector)
        requires
            r == (if generation { word | 0x1000 } else { word & !0x1000u32 }),
    ;
}

/// Setting or clearing the active flag changes that flag, and no other
/// field.
pub proof fn lemma_with_active(word: u32, active: bool)
    ensures
        cell_fields(with_active(word, active)) == (CellFields { active, ..cell_fields(word) }),
{
    let r = with_active(word, active);
    assert({
        &&& r & 0xFFF == word & 0xFFF
        &&& (r & 0x1000 != 0) == (word & 0x1000 != 0)
        &&& (r & 0x2000 != 0) == active
        &&& (r >> 14) & 0x3 == (word >> 14) & 0x3
        &&& (r >> 16) & 0xFF == (word >> 16) & 0xFF
        &&& (r >> 24) as u8 == (word >> 24) as u8
    }) by (bit_vector)
        requires
            r == (if active { word | 0x2000 } else { word & !0x2000u32 }),
    ;
}

/// Accessors over a cell word. Every operation is a constant number of
/// bit masks; a setter changes its own field and no other.
pub trait CellTrait {
    /// The 32-bit word that holds the cell.
    spec fn word(&self) -> u32;

    /// The material index of the cell.
    fn material_idx(&self) -> (idx: u32)
        ensures
            idx == cell_fields(self.word()).material,
            idx <= MATERIAL_MASK,
    ;

    /// Stores the low twelve bits of `material` as the material index.
    fn set_material_idx(&mut self, material: u32)
        ensures
            final(self).word() == with_material(old(self).word(), material),
            cell_fields(final(self).word()) == (CellFields {
                material: material & MATERIAL_MASK,
                ..cell_fields(old(self).word())
            }),
    ;

    /// The cell's material index together with its entry in `materials`,
    /// or `None` where the table has no such entry.
    fn material<'a>(&self, materials: &'a Vec<Material>) -> (found: Option<(u32, &'a Material)>)
        ensures
            found is Some <==> cell_fields(self.word()).material < materials@.len(),
            found matches Some(entry) ==> entry.0 == cell_fields(self.word()).material && *entry.1
                == materials@[entry.0 as int],
    ;

    /// Whether the cell was updated in the generation whose reference
    /// flag is `generation`.
    fn is_updated(&self, generation: bool) -> (updated: bool)
        ensures
            updated == is_updated_in(self.word(), generation),
    ;

    /// Marks the cell as updated in the generation whose reference flag is
    /// `generation`.
    fn set_updated(&mut self, generation: bool)
        ensures
            final(self).word() == with_updated(old(self).word(), generation),
            is_updated_in(final(self).word(), generation),
            cell_fields(final(self).word()) == (CellFields {
                updated: generation,
                ..cell_fields(old(self).word())
            }),
    ;

    /// Whether the cell takes part in the next sweep.
    fn is_active(&self) -> (active: bool)
        ensures
            active == cell_fields(self.word()).active,
    ;

    /// Sets or clears the active flag.
    fn set_active(&mut self, active: bool)
        ensures
            final(self).word() == with_active(old(self).word(), active),
            cell_fields(final(self).word()) == (CellFields {
                active,
                ..cell_fields(old(self).word())
            }),
    ;

    /// The color byte of the cell.
    fn color(&self) -> (color: u8)
        ensures
            color == cell_fields(self.word()).color,
    ;

    /// Stores the color byte of the cell.
    fn set_color(&mut self, color: u8)
        ensures
            final(self).word() == (old(self).word() & !COLOR_MASK) | ((color as u32) << COLOR_SHIFT),
            cell_fields(final(self).word()) == (CellFields {
                color,
                ..cell_fields(old(self).word())
            }),
    ;
}

impl CellTrait for u32 {
    open spec fn word(&self) -> u32 {
        *self
    }

    fn material_idx(&self) -> (idx: u32) {
        let w: u32 = *self;
        assert(w & 0xFFF <= 0xFFF) by (bit_vector);
        w & MATERIAL_MASK
    }

    fn set_material_idx(&mut self, material: u32) {
        proof {
            lemma_with_material(*self, material);
        }
        *self = (*self & !MATERIAL_MASK) | (material & MATERIAL_MASK);
    }

    fn material<'a>(&self, materials: &'a Vec<Material>) -> (found: Option<(u32, &'a Material)>) {
        let idx = self.material_idx();
        if (idx as usize) < materials.len() {
            Some((idx, &materials[idx as usize]))
        } else {
            None
        }
    }

    fn is_updated(&self, generation: bool) -> (updated: bool) {
        ((*self & UPDATED_MASK) != 0) == generation
    }

    fn set_updated(&mut self, generation: bool) {
        proof {
            lemma_with_updated(*self, generation);
        }
        if generation {
            *self = *self | UPDATED_MASK;
        } else {
            *self = *self & !UPDATED_MASK;
        }
    }

    fn is_active(&self) -> (active: bool) {
        (*self & CELL_ACTIVE_MASK) != 0
    }

    fn set_active(&mut self, active: bool) {
        proof {
            lemma_with_active(*self, active);
        }
        if active {
            *self = *self | CELL_ACTIVE_MASK;
        } else {
            *self = *self & !CELL_ACTIVE_MASK;
        }
    }

    fn color(&self) -> (color: u8) {
        let w: u32 = *self;
        assert((w & 0xFF00_0000) >> 24 == w >> 24) by (bit_vector);
        ((w & COLOR_MASK) >> COLOR_SHIFT) as u8
    }

    fn set_color(&mut self, color: u8) {
        let w: u32 = *self;
        let r: u32 = (w & !COLOR_MASK) | ((color as u32) << COLOR_SHIFT);
        assert({
            &&& r & 0xFFF == w & 0xFFF
            &&& (r & 0x1000 != 0) == (w & 0x1000 != 0)
            &&& (r & 0x2000 != 0) == (w & 0x2000 != 0)
            &&& (r >> 14) & 0x3 == (w >> 14) & 0x3
            &&& (r >> 16) & 0xFF == (w >> 16) & 0xFF
            &&& (r >> 24) as u8 == color
        }) by (bit_vector)
            requires
                r == (w & !0xFF00_0000u32) | ((color as u32) << 24),
        ;
        *self = r;
    }
}

} // verus!
