use vstd::prelude::*;

use crate::text::{int_text, push_int_text, string_of};

verus! {

/// The text `z/x/y` of a tile coordinate.
pub open spec fn tile_coord_text(z: u8, x: u32, y: u32) -> Seq<char> {
    int_text(z as int) + seq!['/'] + int_text(x as int) + seq!['/'] + int_text(y as int)
}

/// Renders a tile coordinate as `z/x/y`.
pub fn format_tile_coord(z: u8, x: u32, y: u32) -> (r: String)
    ensures
        r@ == tile_coord_text(z, x, y),
{
    let mut out: Vec<char> = Vec::new();
    push_int_text(z as i64, &mut out);
    out.push('/');
    push_int_text(x as i64, &mut out);
    out.push('/');
    push_int_text(y as i64, &mut out);
    assert(out@ =~= tile_coord_text(z, x, y));
    string_of(&out)
}

} // verus!
