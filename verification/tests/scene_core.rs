use render_core::scene::light::{LightId, LightType};
use render_core::scene::light_sampler::{LightSamplerId, LightSamplerType};
use render_core::scene::material::{MaterialId, MaterialType};
use render_core::scene::node::{NodeId, NodeType};
use render_core::scene::shapes::{ShapeId, ShapeType, Sphere, TriVertex};
use render_core::scene::spectra::{SpectrumData, SpectrumId, SpectrumType, TableSpectrum};
use render_core::scene::texture::{TextureId, TextureType};
use render_core::scene::{Bounds, Scene, Vec3};

fn empty_scene() -> Scene {
    Scene::empty()
}

fn v(x: i64, y: i64, z: i64) -> Vec3 {
    Vec3::new(x, y, z)
}

#[test]
fn handle_round_trip_every_kind() {
    let l = LightId::new(LightType::Area, 12345);
    assert_eq!(l.ty(), LightType::Area);
    assert_eq!(l.idx(), 12345);
    assert!(l.is_infinite() == false);
    assert!(LightId::new(LightType::Uniform, 7).is_infinite());

    let n = NodeId::new(NodeType::Transform, 0x3fff_ffff);
    assert_eq!(n.ty(), NodeType::Transform);
    assert_eq!(n.idx(), 0x3fff_ffff);

    let s = ShapeId::new(ShapeType::Triangle, 0x7fff_ffff);
    assert_eq!(s.ty(), ShapeType::Triangle);
    assert_eq!(s.idx(), 0x7fff_ffff);

    let m = MaterialId::new(MaterialType::MetallicWorkflow, 0);
    assert_eq!(m.ty(), MaterialType::MetallicWorkflow);
    assert_eq!(m.idx(), 0);

    let sp = SpectrumId::new(SpectrumType::PiecewiseLinear, 42);
    assert_eq!(sp.ty(), SpectrumType::PiecewiseLinear);
    assert_eq!(sp.idx(), 42);

    let t = TextureId::new(TextureType::Checkerboard, 9);
    assert_eq!(t.ty(), TextureType::Checkerboard);
    assert_eq!(t.idx(), 9);

    let ls = LightSamplerId::new(LightSamplerType::Power, 1);
    assert_eq!(ls.ty(), LightSamplerType::Power);
    assert_eq!(ls.idx(), 1);
}

#[test]
fn bounds_union_and_area() {
    let a = Bounds { min: v(-1, -1, -1), max: v(1, 1, 1) };
    let b = Bounds { min: v(0, 0, 0), max: v(3, 2, 1) };
    let u = a.union(&b);
    assert_eq!(u.min, v(-1, -1, -1));
    assert_eq!(u.max, v(3, 2, 1));
    // a 2 x 2 x 2 box has face area 4 on each of its six faces
    assert_eq!(a.surface_area(), 24);
    let c = a.corners();
    assert_eq!(c.len(), 8);
    assert_eq!(c[0], v(-1, -1, -1));
    assert_eq!(c[7], v(1, 1, 1));
    assert_eq!(c[5], v(1, -1, 1));
}

#[test]
fn arena_handles_count_up() {
    let mut scene = empty_scene();
    let a = scene.add_sphere(Sphere { z_min: -0x1_0000, z_max: 0x1_0000, flip_normal: false });
    let b = scene.add_sphere(Sphere { z_min: 0, z_max: 0x1_0000, flip_normal: false });
    assert_eq!(a.idx(), 0);
    assert_eq!(b.idx(), 1);
    assert_eq!(scene.spheres.len(), 2);

    let verts = vec![
        TriVertex { p: v(0, 0, 0), u: 0, n: v(0, 0, 1), v: 0 },
        TriVertex { p: v(1, 0, 0), u: 0, n: v(0, 0, 1), v: 0 },
        TriVertex { p: v(0, 1, 0), u: 0, n: v(0, 0, 1), v: 0 },
    ];
    let tris = vec![(0u32, 1u32, 2u32)];
    let ids = scene.add_triangles(&verts, &tris);
    assert_eq!(ids.len(), 1);
    assert_eq!(ids[0].ty(), ShapeType::Triangle);
    assert_eq!(scene.triangles[0].v0, 0);

    // a second batch offsets its triple by the vertex base
    let ids2 = scene.add_triangles(&verts, &tris);
    assert_eq!(ids2[0].idx(), 1);
    assert_eq!(scene.triangles[1].v0, 3);
}

#[test]
fn scene_new_seeds_named_spectra() {
    let zeros = vec![0i64; 471];
    let builtin = SpectrumData {
        cie_x: TableSpectrum { data: zeros.clone() },
        cie_y: TableSpectrum { data: zeros.clone() },
        cie_z: TableSpectrum { data: zeros.clone() },
        d65: TableSpectrum { data: zeros.clone() },
        iors: vec![(String::from("metal"), vec![(360, 100), (830, 200)])],
    };
    let scene = Scene::new(builtin);
    assert_eq!(scene.table_spectra.len(), 4);
    assert_eq!(scene.infinite_lights.len(), 1);
    assert_eq!(scene.named_spectra.len(), 2);
    assert_eq!(scene.named_spectra[0].0, "stdillum-D65");
    assert_eq!(scene.named_spectra[0].1.ty(), SpectrumType::Table);
    assert_eq!(scene.named_spectra[0].1.idx(), 3);
    assert_eq!(scene.named_spectra[1].0, "metal");
    assert_eq!(scene.piecewise_linear_spectra.len(), 1);
    assert_eq!(scene.piecewise_linear_spectra[0].entries, 2);
    assert_eq!(scene.float_data, vec![360, 100, 830, 200]);
}

fn cube_primitive(scene: &mut Scene, cx: i64, cy: i64, cz: i64, half: i64) -> NodeId {
    let verts = vec![
        TriVertex { p: v(cx - half, cy - half, cz - half), u: 0, n: v(0, 0, 1), v: 0 },
        TriVertex { p: v(cx + half, cy + half, cz + half), u: 0, n: v(0, 0, 1), v: 0 },
        TriVertex { p: v(cx - half, cy - half, cz - half), u: 0, n: v(0, 0, 1), v: 0 },
    ];
    let tris = vec![(0u32, 1u32, 2u32)];
    let shape = scene.add_triangles(&verts, &tris)[0];
    let mat = MaterialId::new(MaterialType::Diffuse, 0);
    let alpha = TextureId::new(TextureType::ConstantFloat, 0);
    scene.add_primitive(render_core::scene::node::PrimitiveNode {
        shape,
        material: mat,
        light: LightId::zero(),
        alpha,
    })
}

// Walks the flattened tree and checks the implicit layout: an internal node
// at index i owns [i, end), its left child starts at i + 1, and its far
// child's subtree ends where the node's region does.
fn check_bvh(scene: &Scene, i: usize, end: usize, leaves: &mut Vec<NodeId>) {
    let node = scene.bvh_nodes[i];
    if end == i + 1 {
        assert_eq!(node.flags, 0);
        leaves.push(node.far_node);
    } else {
        assert!(node.flags != 0);
        assert_eq!(node.far_node.ty(), NodeType::Bvh);
        let far = node.far_node.idx();
        assert!(i + 1 < far && far < end);
        check_bvh(scene, i + 1, far, leaves);
        check_bvh(scene, far, end, leaves);
    }
}

#[test]
fn bvh_four_cubes_scenario() {
    let mut scene = empty_scene();
    let a = cube_primitive(&mut scene, -2, 0, 0, 1);
    let b = cube_primitive(&mut scene, 2, 0, 0, 1);
    let c = cube_primitive(&mut scene, 0, -2, 0, 1);
    let d = cube_primitive(&mut scene, 0, 2, 0, 1);
    let root = scene.add_bvh(&vec![a, b, c, d]);
    // exactly 2n - 1 nodes for n objects
    assert_eq!(scene.bvh_nodes.len(), 7);
    assert_eq!(root.ty(), NodeType::Bvh);
    assert_eq!(root.idx(), 0);
    // the root's box is the union of all input boxes
    let r = scene.bvh_nodes[0];
    assert_eq!(r.min, v(-3, -3, -1));
    assert_eq!(r.max, v(3, 3, 1));
    // every input leaf appears exactly once
    let mut leaves = Vec::new();
    check_bvh(&scene, 0, 7, &mut leaves);
    assert_eq!(leaves.len(), 4);
    for id in [a, b, c, d] {
        assert_eq!(leaves.iter().filter(|x| **x == id).count(), 1);
    }
}

#[test]
fn bvh_single_object_is_one_wrapper() {
    let mut scene = empty_scene();
    let a = cube_primitive(&mut scene, 0, 0, 0, 1);
    let root = scene.add_bvh(&vec![a]);
    assert_eq!(scene.bvh_nodes.len(), 1);
    assert_eq!(root.idx(), 0);
    assert_eq!(scene.bvh_nodes[0].flags, 0);
    assert_eq!(scene.bvh_nodes[0].far_node, a);
}

fn brute_force_cost(boxes: &[Bounds], k: usize) -> i128 {
    let union_of = |bs: &[Bounds]| {
        let mut u = bs[0];
        for b in &bs[1..] {
            u = u.union(b);
        }
        u
    };
    let area = |b: Bounds| -> i128 {
        let dx = (b.max.x - b.min.x) as i128;
        let dy = (b.max.y - b.min.y) as i128;
        let dz = (b.max.z - b.min.z) as i128;
        2 * (dx * dy + dx * dz + dy * dz)
    };
    k as i128 * area(union_of(&boxes[..k])) + (boxes.len() - k) as i128 * area(union_of(&boxes[k..]))
}

#[test]
fn sah_split_matches_brute_force() {
    // five boxes: a tight cluster of three and two far outliers
    let boxes = [
        Bounds { min: v(0, 0, 0), max: v(1, 1, 1) },
        Bounds { min: v(1, 0, 0), max: v(2, 1, 1) },
        Bounds { min: v(2, 0, 0), max: v(3, 1, 1) },
        Bounds { min: v(50, 0, 0), max: v(52, 2, 2) },
        Bounds { min: v(60, 0, 0), max: v(61, 1, 1) },
    ];
    let objs: Vec<(NodeId, Bounds)> =
        boxes.iter().map(|b| (NodeId::zero(), *b)).collect();
    let k = render_core::scene::node::best_split(&objs, 0, 5);
    let mut best = 1;
    for j in 1..5 {
        if brute_force_cost(&boxes, j) < brute_force_cost(&boxes, best) {
            best = j;
        }
    }
    assert_eq!(k, best);
    for j in 1..5 {
        assert!(brute_force_cost(&boxes, k) <= brute_force_cost(&boxes, j));
    }
}
