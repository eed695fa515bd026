//! What a tile looks like: its background colour and its label.

use vstd::prelude::*;
use crate::codec::{digits, push_digits};

verus! {

/// A colour as red, green and blue.
#[derive(Clone, Copy, Debug, PartialEq, Eq, Structural)]
pub struct Rgb {
    pub r: u8,
    pub g: u8,
    pub b: u8,
}

/// The background colour of a cell that holds `v`. The empty cell and the
/// tiles from 2 to 2048 have colours of their own; every other value is
/// shown like 2048.
pub open spec fn color_spec(v: u32) -> Rgb {
    if v == 0 {
        Rgb { r: 40, g: 40, b: 40 }
    } else if v == 2 {
        Rgb { r: 102, g: 153, b: 204 }
    } else if v == 4 {
        Rgb { r: 179, g: 198, b: 161 }
    } else if v == 8 {
        Rgb { r: 255, g: 242, b: 117 }
    } else if v == 16 {
        Rgb { r: 255, g: 191, b: 92 }
    } else if v == 32 {
        Rgb { r: 255, g: 140, b: 66 }
    } else if v == 64 {
        Rgb { r: 255, g: 100, b: 61 }
    } else if v == 128 {
        Rgb { r: 255, g: 60, b: 56 }
    } else if v == 256 {
        Rgb { r: 209, g: 61, b: 64 }
    } else if v == 512 {
        Rgb { r: 162, g: 62, b: 72 }
    } else if v == 1024 {
        Rgb { r: 170, g: 80, b: 89 }
    } else {
        Rgb { r: 178, g: 96, b: 104 }
    }
}

/// The background colour of a cell that holds `v`.
pub fn tile_color(v: u32) -> (c: Rgb)
    ensures
        c == color_spec(v),
{
    match v {
        0 => Rgb { r: 40, g: 40, b: 40 },
        2 => Rgb { r: 102, g: 153, b: 204 },
        4 => Rgb { r: 179, g: 198, b: 161 },
        8 => Rgb { r: 255, g: 242, b: 117 },
        16 => Rgb { r: 255, g: 191, b: 92 },
        32 => Rgb { r: 255, g: 140, b: 66 },
        64 => Rgb { r: 255, g: 100, b: 61 },
        128 => Rgb { r: 255, g: 60, b: 56 },
        256 => Rgb { r: 209, g: 61, b: 64 },
        512 => Rgb { r: 162, g: 62, b: 72 },
        1024 => Rgb { r: 170, g: 80, b: 89 },
        _ => Rgb { r: 178, g: 96, b: 104 },
    }
}

/// The text on a cell that holds `v`: nothing on an empty cell, the decimal
/// digits of the value on a tile.
pub fn tile_label(v: u32) -> (label: Vec<u8>)
    ensures
        label@ == if v == 0 {
            Seq::<u8>::empty()
        } else {
            digits(v as nat)
        },
{
    let mut label: Vec<u8> = Vec::new();
    if v != 0 {
        push_digits(&mut label, v);
        assert(label@ =~= digits(v as nat));
    }
    label
}

} // verus!
