//! The steps that connect the stages: what one render worker does with a
//! snapshot, what the static mode writes, and the default output names.

use vstd::prelude::*;
use vstd::string::StringExecFns;
use crate::geometry::all_in_bounds;
use crate::hull::{Locations, hull_triangles, is_hull_of};
use crate::solid::{Solid, triangles_in_range};
use crate::solids::{PlatonicSolid, solid_name};
use crate::stl::{stl_text, to_stl};
use crate::view::{Draw, Image, ViewParams, image_pixels, image_shape, pixel_value, view};

verus! {

/// What the program produces.
#[derive(Clone, Copy, Debug, PartialEq, Eq, Structural)]
pub enum OutputType {
    /// An animation of the solid relaxing from random points to its final shape.
    EvolutionGif,
    /// A mesh file of the final shape.
    Stl,
}

/// The default output file name for a solid and an output kind.
pub open spec fn default_output_spec(solid: PlatonicSolid, output_type: OutputType) -> Seq<char> {
    match output_type {
        OutputType::EvolutionGif => "out.gif"@,
        OutputType::Stl => solid_name(solid) + ".stl"@,
    }
}

pub fn default_output(solid: &PlatonicSolid, output_type: &OutputType) -> (r: String)
    ensures
        r@ == default_output_spec(*solid, *output_type),
{
    match output_type {
        OutputType::EvolutionGif => String::from_str("out.gif"),
        OutputType::Stl => {
            let mut name = solid.name();
            name.append(".stl");
            name
        },
    }
}

/// Every hull triangle names existing positions.
proof fn lemma_hull_in_range(pts: Seq<crate::geometry::Point3>, tris: Seq<crate::hull::Triangle>)
    requires
        is_hull_of(pts, tris),
    ensures
        triangles_in_range(tris, pts.len() as int),
{
    assert forall|m: int, c: int| 0 <= m < tris.len() && 0 <= c < 3 implies (#[trigger] tris[m][c])
        < pts.len() by {
        assert(crate::hull::emitted_facet(pts, tris[m]));
    }
}

/// Triangulates one snapshot of positions into a solid.
pub fn triangulate(locations: Locations) -> (r: Solid)
    requires
        all_in_bounds(locations@),
    ensures
        r.locations@ == locations@,
        is_hull_of(locations@, r.triangles@),
        r.well_formed(),
{
    let triangles = hull_triangles(&locations);
    proof {
        lemma_hull_in_range(locations@, triangles@);
    }
    Solid { locations, triangles }
}

/// One frame of the animation: the snapshot triangulated, then rendered.
pub fn render_snapshot(locations: Locations, cfg: &ViewParams) -> (r: Image)
    requires
        all_in_bounds(locations@),
        cfg.valid(),
    ensures
        image_shape(r) == (cfg.image_height_px as nat, cfg.image_width_px as nat),
        image_pixels(r).len() == cfg.image_height_px * cfg.image_width_px,
        exists|s: Solid|
            s.locations@ == locations@ && is_hull_of(locations@, s.triangles@) && forall|
                y: int,
                x: int,
            |
                0 <= y < cfg.image_height_px && 0 <= x < cfg.image_width_px ==> #[trigger] image_pixels(
                    r,
                )[y * cfg.image_width_px + x] == pixel_value(&s, *cfg, x, y),
{
    let solid = triangulate(locations);
    let image = view(&solid, cfg);
    image
}

/// The mesh text of a solid's final positions: their hull triangles, written
/// under the solid's name.
pub fn stl(solid_type: &PlatonicSolid, locations: &Locations) -> (r: String)
    requires
        all_in_bounds(locations@),
    ensures
        exists|tris: Seq<crate::hull::Triangle>|
            is_hull_of(locations@, tris) && r@ == stl_text(solid_name(*solid_type), locations@, tris),
{
    let triangles = hull_triangles(locations);
    proof {
        lemma_hull_in_range(locations@, triangles@);
    }
    let name = solid_type.name();
    to_stl(name.as_str(), &triangles, locations)
}

} // verus!
