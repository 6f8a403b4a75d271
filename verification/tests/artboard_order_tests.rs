use ultra_render::lottie::model::LayerType;
use ultra_render::scene::graph::{
    build_nodes, compute_depths, draw_role, layer_draw_order, resolve_parent_indices, AssetLinks,
    DrawRole, LayerLinks, NodeSource,
};

fn shape_layer(index: i32) -> LayerLinks {
    LayerLinks { layer_type: LayerType::Shape, index: Some(index), parent_index: None, ref_id: None }
}

/// The fill colours of the drawn layers, back to front, each layer carrying the
/// colour given for it (top level layers by position, asset layers by asset position).
fn drawn_colors(
    layers: &Vec<LayerLinks>,
    assets: &Vec<AssetLinks>,
    layer_colors: &Vec<(u8, u8, u8)>,
    asset_colors: &Vec<Vec<(u8, u8, u8)>>,
) -> Vec<(u8, u8, u8)> {
    let (mut nodes, sources) = build_nodes(layers, assets);
    resolve_parent_indices(&mut nodes);
    compute_depths(&mut nodes);
    let mut roles: Vec<DrawRole> = Vec::new();
    for s in &sources {
        let t = match s {
            NodeSource::Root => None,
            NodeSource::Layer(i) => Some(layers[*i].layer_type),
            NodeSource::AssetLayer { asset, layer, .. } => Some(assets[*asset].layers[*layer].layer_type),
        };
        roles.push(draw_role(t, true));
    }
    let visible = vec![true; nodes.len()];
    layer_draw_order(&nodes, &roles, &visible)
        .iter()
        .filter_map(|&n| match &sources[n] {
            NodeSource::Root => None,
            NodeSource::Layer(i) => Some(layer_colors[*i]),
            NodeSource::AssetLayer { asset, layer, .. } => Some(asset_colors[*asset][*layer]),
        })
        .collect()
}

const RED: (u8, u8, u8) = (255, 0, 0);
const GREEN: (u8, u8, u8) = (0, 255, 0);
const BLUE: (u8, u8, u8) = (0, 0, 255);

#[test]
fn test_layer_ordering_back_to_front() {
    // Lottie layers are front-to-back: the first in the array renders on top.
    let layers = vec![shape_layer(1), shape_layer(0)];
    let colors = drawn_colors(&layers, &vec![], &vec![BLUE, RED], &vec![]);
    assert_eq!(colors.len(), 2);
    assert_eq!(colors[0], RED);
    assert_eq!(colors[1], BLUE);
}

#[test]
fn test_precomp_children_render() {
    let asset = AssetLinks { id: "precomp_1".to_string(), is_image: false, layers: vec![shape_layer(0)] };
    let precomp_layer = LayerLinks {
        layer_type: LayerType::Precomp,
        index: Some(0),
        parent_index: None,
        ref_id: Some("precomp_1".to_string()),
    };
    let colors = drawn_colors(&vec![precomp_layer], &vec![asset], &vec![(0, 0, 0)], &vec![vec![GREEN]]);
    assert!(!colors.is_empty());
    assert_eq!(colors[0], GREEN);
}

#[test]
fn test_parented_layers_keep_global_draw_order() {
    let mut child = shape_layer(1);
    child.parent_index = Some(3);
    let sibling = shape_layer(2);
    let parent = shape_layer(3);
    let colors = drawn_colors(&vec![child, sibling, parent], &vec![], &vec![GREEN, BLUE, RED], &vec![]);
    assert_eq!(colors, vec![RED, BLUE, GREEN]);
}
