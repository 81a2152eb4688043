use render_core::guide::isqrt32;
use render_core::scene::material::{MaterialId, MaterialType};
use render_core::scene::node::PrimitiveNode;
use render_core::scene::shapes::{ShapeType, TriVertex};
use render_core::scene::spectra::{SpectrumId, SpectrumType};
use render_core::scene::texture::{TextureId, TextureType};
use render_core::scene::{Affine, Bounds, Scene, Transform, Vec3};

fn point(x: i64, y: i64, z: i64) -> Vec3 {
    Vec3::new(x, y, z)
}

#[test]
fn one_dimensional_cdf_is_cumulative_magnitude() {
    let mut scene = Scene::empty();
    let f = vec![3i64, -4, 5];
    let sampler = scene.add_1d_table_sampler(-10, 10, &f);
    assert_eq!(sampler.min_x, -10);
    assert_eq!(sampler.max_x, 10);
    assert_eq!(sampler.cdf_ptr, 0);
    assert_eq!(sampler.len, 3);
    assert_eq!(scene.float_data, vec![0, 3, 7, 12]);
}

#[test]
fn two_dimensional_cdf_rows_then_marginal() {
    let mut scene = Scene::empty();
    let f = vec![1i64, 2, -3, 4];
    let sampler = scene.add_2d_table_sampler(0, 1, 0, 1, 2, 2, &f);
    assert_eq!(sampler.width, 2);
    assert_eq!(sampler.height, 2);
    assert_eq!(sampler.cdf_ptr, 0);
    // one cumulative row per table row, then the cumulative row totals
    assert_eq!(scene.float_data, vec![0, 1, 3, 0, 3, 7, 0, 3, 10]);
}

#[test]
fn bounds_from_points_is_tight() {
    let points = vec![point(3, -1, 0), point(-2, 5, 1), point(0, 0, -7)];
    let b = Bounds::from_points(&points);
    assert_eq!(b.min, point(-2, -1, -7));
    assert_eq!(b.max, point(3, 5, 1));
}

fn identity_rows() -> Affine {
    Affine { r0: point(1, 0, 0), r1: point(0, 1, 0), r2: point(0, 0, 1), t: point(0, 0, 0) }
}

#[test]
fn transform_nodes_shift_bounds_outward() {
    let mut scene = Scene::empty();
    let verts = vec![
        TriVertex { p: point(-1, -1, -1), u: 0, n: point(0, 0, 1), v: 0 },
        TriVertex { p: point(1, 1, 1), u: 0, n: point(0, 0, 1), v: 0 },
        TriVertex { p: point(-1, -1, -1), u: 0, n: point(0, 0, 1), v: 0 },
    ];
    let shape = scene.add_triangles(&verts, &vec![(0u32, 1u32, 2u32)])[0];
    let prim = scene.add_primitive(PrimitiveNode {
        shape,
        material: MaterialId::new(MaterialType::Diffuse, 0),
        light: render_core::scene::light::LightId::zero(),
        alpha: TextureId::new(TextureType::ConstantFloat, 0),
    });
    // the object-to-world direction carries a translation by five
    let mut outward = identity_rows();
    outward.t = point(5, 0, 0);
    let transform = Transform { m: identity_rows(), m_inv: outward };
    let node = scene.add_transform(transform, prim);
    let b = scene.node_bounds(node);
    assert_eq!(b.min, point(4, -1, -1));
    assert_eq!(b.max, point(6, 1, 1));
}

#[test]
fn alias_draws_follow_the_documented_rule() {
    let mut scene = Scene::empty();
    let spectrum = SpectrumId::new(SpectrumType::Constant, 0);
    let alpha = TextureId::new(TextureType::ConstantFloat, 0);
    let shape = render_core::scene::shapes::ShapeId::new(ShapeType::Sphere, 0);
    let lights = vec![
        scene.add_area_light(shape, spectrum, alpha),
        scene.add_area_light(shape, spectrum, alpha),
        scene.add_area_light(shape, spectrum, alpha),
    ];
    let sampler = scene.add_power_light_sampler(&lights, &vec![1, 1, 2]);
    let den: u64 = 1 << 32;
    // scaled draw 0: bucket 0, remainder 0, kept share 3/4: its own light
    assert_eq!(scene.sample_power_light(sampler, 0, den), lights[0]);
    // scaled draw 1.5: bucket 1, remainder 1/2, which is below 3/4
    assert_eq!(scene.sample_power_light(sampler, den / 2, den), lights[1]);
    // scaled draw 0.75: bucket 0, remainder 3/4, not below 3/4: the alias
    assert_eq!(scene.sample_power_light(sampler, den / 4, den), lights[2]);
}

#[test]
fn integer_square_roots() {
    assert_eq!(isqrt32(0), 0);
    assert_eq!(isqrt32(1), 1);
    assert_eq!(isqrt32(3), 1);
    assert_eq!(isqrt32(4), 2);
    assert_eq!(isqrt32(24), 4);
    assert_eq!(isqrt32(25), 5);
    assert_eq!(isqrt32(u32::MAX), 65535);
}

#[test]
fn set_light_sampling_path_touches_one_record() {
    let mut scene = Scene::empty();
    let spectrum = SpectrumId::new(SpectrumType::Constant, 0);
    let alpha = TextureId::new(TextureType::ConstantFloat, 0);
    let shape = render_core::scene::shapes::ShapeId::new(ShapeType::Sphere, 0);
    let a = scene.add_area_light(shape, spectrum, alpha);
    let b = scene.add_area_light(shape, spectrum, alpha);
    scene.set_light_sampling_path(b, 9);
    assert_eq!(scene.area_lights[a.idx()].light_sampling_path, 0);
    assert_eq!(scene.area_lights[b.idx()].light_sampling_path, 9);
    let t = render_core::scene::node::NodeId::new(
        render_core::scene::node::NodeType::Transform,
        3,
    );
    scene.set_area_light_transform(a, t);
    assert_eq!(scene.area_lights[a.idx()].transform_node, t);
}
