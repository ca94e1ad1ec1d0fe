use vstd::prelude::*;

use crate::ecs::components::RenderLayer;

verus! {

/// What is drawn for a renderable entity.
#[derive(Debug, Clone, Copy, PartialEq, Eq, Structural)]
pub enum Shape {
    /// A ship's triangle.
    Hull,
    /// A bullet's disc, of the bullet size.
    Round,
    /// An effect's disc, growing over the effect's life.
    Burst,
}

/// The shape drawn for an entity on `layer`: nothing when it is hidden,
/// and nothing for an entity on the background, boundary or nebula layer.
pub open spec fn shape_of(layer: RenderLayer, visible: bool) -> Option<Shape> {
    if !visible {
        None
    } else {
        match layer {
            RenderLayer::Ship => Some(Shape::Hull),
            RenderLayer::Bullet => Some(Shape::Round),
            RenderLayer::Effect => Some(Shape::Burst),
            _ => None,
        }
    }
}

/// Picks the shape to draw for a renderable entity (see `shape_of`).
pub fn shape_for(layer: RenderLayer, visible: bool) -> (r: Option<Shape>)
    ensures
        r == shape_of(layer, visible),
{
    if !visible {
        return None;
    }
    match layer {
        RenderLayer::Ship => Some(Shape::Hull),
        RenderLayer::Bullet => Some(Shape::Round),
        RenderLayer::Effect => Some(Shape::Burst),
        _ => None,
    }
}

/// Hidden entities draw nothing; a visible ship draws a hull, a visible
/// bullet a round and a visible effect a burst, and every other layer
/// draws nothing. Different layers never draw the same shape.
pub proof fn lemma_shapes_by_layer(layer: RenderLayer, other: RenderLayer, visible: bool)
    ensures
        !visible ==> shape_of(layer, visible) is None,
        visible && layer == RenderLayer::Ship ==> shape_of(layer, visible) == Some(Shape::Hull),
        visible && layer == RenderLayer::Bullet ==> shape_of(layer, visible) == Some(Shape::Round),
        visible && layer == RenderLayer::Effect ==> shape_of(layer, visible) == Some(Shape::Burst),
        (layer == RenderLayer::Background || layer == RenderLayer::Boundary || layer == RenderLayer::Nebula)
            ==> shape_of(layer, visible) is None,
        shape_of(layer, visible) is Some && shape_of(layer, visible) == shape_of(other, visible) ==> layer == other,
{
}

} // verus!
