//! A discrete 2D cellular grid simulation: typed, directed cells (walls,
//! movers, generators, rotators, slides, push blocks, trash, enemies)
//! interact each tick through pushing, rotating and generating.

pub mod cell_data;
pub mod cells;
pub mod direction;
pub mod manipulation;
pub mod update;
