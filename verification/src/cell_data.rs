use vstd::prelude::*;

verus! {

/// Small integer tag identifying one of the nine cell kinds.
pub type CellType = u8;

pub const WALL: CellType = 1;
pub const MOVER: CellType = 2;
pub const GENERATOR: CellType = 3;
pub const ROTATOR_CW: CellType = 4;
pub const ROTATOR_CCW: CellType = 5;
pub const PUSH: CellType = 6;
pub const SLIDE: CellType = 7;
pub const TRASH: CellType = 8;
pub const ENEMY: CellType = 9;

/// Whether a tag names one of the nine known cell kinds.
pub open spec fn valid_cell_type(id: CellType) -> bool {
    WALL <= id <= ENEMY
}

/// Static description of a cell kind. `sides` matters only to rendering,
/// never to the simulation.
#[derive(Debug, Clone, Copy, PartialEq, Eq)]
pub struct CellData {
    pub id: CellType,
    pub name: &'static str,
    pub description: &'static str,
    pub sides: usize,
    pub texture_name: &'static str,
}

/// The description of a cell kind, or `None` for an unknown tag.
pub fn cell_data(id: CellType) -> (r: Option<CellData>)
    ensures
        r is Some <==> valid_cell_type(id),
        r is Some ==> r->Some_0.id == id,
{
    if id == WALL {
        Some(CellData {
            id,
            name: "Wall",
            description: "A solid wall that can't be moved by anything.",
            sides: 1,
            texture_name: "wall",
        })
    } else if id == MOVER {
        Some(CellData {
            id,
            name: "Mover",
            description: "Pushes the cells in front of it.",
            sides: 4,
            texture_name: "mover",
        })
    } else if id == GENERATOR {
        Some(CellData {
            id,
            name: "Generator",
            description: "Generates the cell behind to its front.",
            sides: 4,
            texture_name: "generator",
        })
    } else if id == ROTATOR_CW {
        Some(CellData {
            id,
            name: "Rotator CW",
            description: "Rotates all touching cells clockwise.",
            sides: 1,
            texture_name: "rotator_cw",
        })
    } else if id == ROTATOR_CCW {
        Some(CellData {
            id,
            name: "Rotator CCW",
            description: "Rotates all touching cells counter-clockwise.",
            sides: 1,
            texture_name: "rotator_ccw",
        })
    } else if id == PUSH {
        Some(CellData {
            id,
            name: "Push",
            description: "A normal cell that does nothing.",
            sides: 1,
            texture_name: "push",
        })
    } else if id == SLIDE {
        Some(CellData {
            id,
            name: "Slide",
            description: "Like push cell but can only be moved in two directions.",
            sides: 2,
            texture_name: "slide",
        })
    } else if id == TRASH {
        Some(CellData {
            id,
            name: "Trash",
            description: "Trashes all cells that get moved into it.",
            sides: 1,
            texture_name: "trash",
        })
    } else if id == ENEMY {
        Some(CellData {
            id,
            name: "Enemy",
            description: "An enemy that is destroyed together with the cell pushed into it.",
            sides: 1,
            texture_name: "enemy",
        })
    } else {
        None
    }
}

} // verus!
