use ultra_render::lottie::model::LayerType;
use ultra_render::scene::graph::{
    build_nodes, check_depths_fit, compute_depths, draw_children, draw_role, layer_draw_order, precomp_ancestors,
    resolve_parent_indices, update_order, AssetLinks, DrawRole, LayerLinks, NodeLinks, NodeSource,
    NodeType,
};

fn layer(t: LayerType, index: Option<i32>, parent: Option<i32>) -> LayerLinks {
    LayerLinks { layer_type: t, index, parent_index: parent, ref_id: None }
}

fn graph(layers: &Vec<LayerLinks>, assets: &Vec<AssetLinks>) -> (Vec<NodeLinks>, Vec<NodeSource>) {
    let (mut nodes, sources) = build_nodes(layers, assets);
    resolve_parent_indices(&mut nodes);
    compute_depths(&mut nodes);
    (nodes, sources)
}

fn all_visible(nodes: &Vec<NodeLinks>, types: &Vec<Option<LayerType>>) -> Vec<usize> {
    let roles: Vec<DrawRole> = types.iter().map(|t| draw_role(*t, true)).collect();
    let visible = vec![true; nodes.len()];
    layer_draw_order(nodes, &roles, &visible)
}

#[test]
fn layers_draw_back_to_front() {
    // the first layer of the list is in front, so it is drawn last
    let layers = vec![layer(LayerType::Shape, Some(1), None), layer(LayerType::Shape, Some(0), None)];
    let (nodes, sources) = graph(&layers, &vec![]);
    assert_eq!(sources, vec![NodeSource::Root, NodeSource::Layer(0), NodeSource::Layer(1)]);
    let order = all_visible(&nodes, &vec![None, Some(LayerType::Shape), Some(LayerType::Shape)]);
    assert_eq!(order, vec![2, 1]);
}

#[test]
fn transform_parents_do_not_change_draw_order() {
    let layers = vec![
        layer(LayerType::Shape, Some(1), Some(3)),
        layer(LayerType::Shape, Some(2), None),
        layer(LayerType::Shape, Some(3), None),
    ];
    let (nodes, _) = graph(&layers, &vec![]);
    assert_eq!(nodes[1].parent_idx, Some(3));
    assert_eq!(nodes[2].parent_idx, Some(0));
    assert_eq!(nodes[1].depth, 2);
    let order = all_visible(
        &nodes,
        &vec![None, Some(LayerType::Shape), Some(LayerType::Shape), Some(LayerType::Shape)],
    );
    assert_eq!(order, vec![3, 2, 1]);
}

#[test]
fn parent_reference_resolves_depths() {
    let layers = vec![layer(LayerType::Null, Some(0), None), layer(LayerType::Shape, Some(1), Some(0))];
    let (nodes, _) = graph(&layers, &vec![]);
    assert_eq!(nodes[0].node_type, NodeType::Root);
    assert_eq!(nodes[1].node_type, NodeType::Layer);
    assert_eq!(nodes[2].node_type, NodeType::Shape);
    assert_eq!(nodes[2].parent_idx, Some(1));
    assert_eq!((nodes[0].depth, nodes[1].depth, nodes[2].depth), (0, 1, 2));
    assert_eq!(update_order(&nodes), vec![0, 1, 2]);
}

#[test]
fn unknown_parent_falls_back_to_owner() {
    let layers = vec![layer(LayerType::Shape, Some(1), Some(42))];
    let (nodes, _) = graph(&layers, &vec![]);
    assert_eq!(nodes[1].parent_idx, Some(0));
    assert_eq!(nodes[1].depth, 1);
}

#[test]
fn precomp_children_draw_in_place() {
    let mut pre = layer(LayerType::Precomp, Some(0), None);
    pre.ref_id = Some("precomp_1".to_string());
    let front = layer(LayerType::Shape, Some(5), None);
    let assets = vec![
        AssetLinks { id: "image".to_string(), is_image: true, layers: vec![] },
        AssetLinks {
            id: "precomp_1".to_string(),
            is_image: false,
            layers: vec![layer(LayerType::Shape, Some(0), None), layer(LayerType::Shape, Some(1), Some(0))],
        },
    ];
    let layers = vec![front, pre];
    let (nodes, sources) = graph(&layers, &assets);
    assert_eq!(nodes.len(), 5);
    assert_eq!(sources[3], NodeSource::AssetLayer { owner_layer: 1, asset: 1, layer: 0 });
    assert_eq!(sources[4], NodeSource::AssetLayer { owner_layer: 1, asset: 1, layer: 1 });
    assert_eq!(nodes[3].draw_parent_idx, Some(2));
    assert_eq!(nodes[3].parent_idx, Some(2));
    // the second asset layer is parented to the first within the precomp
    assert_eq!(nodes[4].parent_idx, Some(3));
    assert_eq!(nodes[4].depth, 3);
    let children = draw_children(&nodes);
    assert_eq!(children[0], vec![1, 2]);
    assert_eq!(children[2], vec![3, 4]);
    let types = vec![
        None,
        Some(LayerType::Shape),
        Some(LayerType::Precomp),
        Some(LayerType::Shape),
        Some(LayerType::Shape),
    ];
    assert_eq!(all_visible(&nodes, &types), vec![4, 3, 1]);
    let is_precomp = vec![false, false, true, false, false];
    assert_eq!(precomp_ancestors(&nodes, &is_precomp, 4), vec![2]);
    assert_eq!(precomp_ancestors(&nodes, &is_precomp, 1), Vec::<usize>::new());
    assert_eq!(update_order(&nodes), vec![0, 1, 2, 3, 4]);
}

#[test]
fn invisible_and_skipped_nodes_are_not_drawn() {
    let layers = vec![
        layer(LayerType::Shape, Some(1), None),
        layer(LayerType::Solid, Some(2), None),
        layer(LayerType::Null, Some(3), None),
    ];
    let (nodes, _) = graph(&layers, &vec![]);
    let roles = vec![
        draw_role(None, false),
        draw_role(Some(LayerType::Shape), false),
        draw_role(Some(LayerType::Solid), true),
        draw_role(Some(LayerType::Null), true),
    ];
    assert_eq!(roles[2], DrawRole::Solid);
    assert_eq!(draw_role(Some(LayerType::Solid), false), DrawRole::Skip);
    assert_eq!(layer_draw_order(&nodes, &roles, &vec![true, true, true, true]), vec![2, 1]);
    assert_eq!(layer_draw_order(&nodes, &roles, &vec![true, false, true, true]), vec![2]);
}

#[test]
fn depth_order_is_stable() {
    let mk = |depth: u32| NodeLinks {
        node_type: NodeType::Layer,
        parent_idx: None,
        draw_parent_idx: Some(0),
        lottie_parent: None,
        lottie_index: None,
        depth,
    };
    let nodes = vec![mk(2), mk(0), mk(1), mk(0), mk(2)];
    assert_eq!(update_order(&nodes), vec![1, 3, 2, 0, 4]);
}

#[test]
fn looping_parents_keep_relaxing_for_n_passes() {
    // Nodes 1 and 2 are each other's parent: each pass pushes their depths on.
    let mut nodes: Vec<NodeLinks> = vec![];
    for i in 0..3usize {
        nodes.push(NodeLinks {
            node_type: if i == 0 { NodeType::Root } else { NodeType::Layer },
            parent_idx: match i {
                0 => None,
                1 => Some(2),
                _ => Some(1),
            },
            draw_parent_idx: if i == 0 { None } else { Some(0) },
            lottie_parent: None,
            lottie_index: None,
            depth: 0,
        });
    }
    assert!(check_depths_fit(&nodes));
    compute_depths(&mut nodes);
    // pass 1: 1 -> 1, 2 -> 2; pass 2: 1 -> 3, 2 -> 4; pass 3: 1 -> 5, 2 -> 6
    assert_eq!(nodes[0].depth, 0);
    assert_eq!(nodes[1].depth, 5);
    assert_eq!(nodes[2].depth, 6);
}
