use render_core::guide::{BspNode, PathGuide, QuadNode, NONE_NODE};
use render_core::scene::light::LightType;
use render_core::scene::light_sampler::LightSamplerType;
use render_core::scene::shapes::{ShapeId, ShapeType};
use render_core::scene::spectra::{SpectrumId, SpectrumType};
use render_core::scene::texture::{TextureId, TextureType};
use render_core::scene::Scene;
use render_core::shader::{pre_process, resolve_path, ShaderPiece};
use render_core::util::{human_size, parse_time};
use render_core::ply::{prim_type, PrimType, Property, Type};

fn scene_with_area_lights(n: usize) -> (Scene, Vec<render_core::scene::light::LightId>) {
    let mut scene = Scene::empty();
    let spectrum = SpectrumId::new(SpectrumType::Constant, 0);
    let alpha = TextureId::new(TextureType::ConstantFloat, 0);
    let shape = ShapeId::new(ShapeType::Sphere, 0);
    let mut lights = Vec::new();
    for _ in 0..n {
        lights.push(scene.add_area_light(shape, spectrum, alpha));
    }
    (scene, lights)
}

struct Rng(u64);

impl Rng {
    fn next_u32(&mut self) -> u32 {
        self.0 = self
            .0
            .wrapping_mul(6364136223846793005)
            .wrapping_add(1442695040888963407);
        (self.0 >> 32) as u32
    }
}

#[test]
fn alias_table_three_lights() {
    let (mut scene, lights) = scene_with_area_lights(3);
    let powers = vec![1u64, 1, 2];
    let sampler = scene.add_power_light_sampler(&lights, &powers);
    assert_eq!(sampler.ty(), LightSamplerType::Power);
    let ps = scene.power_light_samplers[0];
    assert_eq!(ps.count, 3);
    assert_eq!(ps.total, 4);
    // the bucket probabilities sum exactly to one over the common
    // denominator, and every kept share stays within one slot
    let pmf_sum: u64 = scene.power_light_sampler_data.iter().map(|b| b.pmf_num).sum();
    assert_eq!(pmf_sum, 4);
    for b in &scene.power_light_sampler_data {
        assert!(b.q_num <= 4);
        assert!((b.alias as usize) < 3 || b.q_num == 4);
    }
    // each light's sampling path is its bucket slot
    for (i, l) in lights.iter().enumerate() {
        assert_eq!(l.ty(), LightType::Area);
        assert_eq!(scene.area_lights[l.idx()].light_sampling_path, i as u32);
        assert_eq!(scene.power_light_sampler_data[i].light, *l);
    }
}

#[test]
fn alias_empirical_matches_powers() {
    let (mut scene, lights) = scene_with_area_lights(3);
    let powers = vec![1u64, 1, 2];
    let sampler = scene.add_power_light_sampler(&lights, &powers);
    let mut counts = [0usize; 3];
    let mut rng = Rng(12345);
    let draws = 100_000usize;
    let den: u64 = 1 << 32;
    for _ in 0..draws {
        let u = rng.next_u32() as u64;
        let light = scene.sample_power_light(sampler, u, den);
        let slot = lights.iter().position(|l| *l == light).unwrap();
        counts[slot] += 1;
    }
    // within one percent of {0.25, 0.25, 0.5}
    assert!(counts[0] >= 24_000 && counts[0] <= 26_000, "{counts:?}");
    assert!(counts[1] >= 24_000 && counts[1] <= 26_000, "{counts:?}");
    assert!(counts[2] >= 49_000 && counts[2] <= 51_000, "{counts:?}");
}

#[test]
fn equal_powers_draw_uniformly() {
    let (mut scene, lights) = scene_with_area_lights(4);
    let powers = vec![5u64, 5, 5, 5];
    let sampler = scene.add_power_light_sampler(&lights, &powers);
    // structurally every bucket keeps its whole slot
    for b in &scene.power_light_sampler_data {
        assert_eq!(b.pmf_num, 5);
        assert_eq!(b.q_num, scene.power_light_samplers[0].total);
    }
    let mut counts = [0usize; 4];
    let mut rng = Rng(99);
    let den: u64 = 1 << 32;
    for _ in 0..100_000 {
        let u = rng.next_u32() as u64;
        let light = scene.sample_power_light(sampler, u, den);
        let slot = lights.iter().position(|l| *l == light).unwrap();
        counts[slot] += 1;
    }
    // each light within one percent of the uniform share
    for c in counts {
        assert!(c >= 24_000 && c <= 26_000, "{counts:?}");
    }
}

#[test]
fn uniform_sampler_stores_list_and_paths() {
    let (mut scene, lights) = scene_with_area_lights(3);
    let sampler = scene.add_uniform_light_sampler(&lights);
    assert_eq!(sampler.ty(), LightSamplerType::Uniform);
    assert_eq!(scene.uniform_light_samplers[0].ptr, 0);
    assert_eq!(scene.uniform_light_samplers[0].count, 3);
    assert_eq!(scene.uniform_light_sampler_data, lights);
    for (i, l) in lights.iter().enumerate() {
        assert_eq!(scene.area_lights[l.idx()].light_sampling_path, i as u32);
    }
}

#[test]
fn infinite_lights_weigh_like_the_rest() {
    // one area light of power 6 and one infinite light: the infinite light
    // gets the whole non-infinite total, so each is drawn half the time
    let mut scene = Scene::empty();
    let spectrum = SpectrumId::new(SpectrumType::Constant, 0);
    let alpha = TextureId::new(TextureType::ConstantFloat, 0);
    let shape = ShapeId::new(ShapeType::Sphere, 0);
    let area = scene.add_area_light(shape, spectrum, alpha);
    let inf = scene.add_uniform_light(spectrum);
    let lights = vec![area, inf];
    let powers = vec![6u64, 0];
    scene.add_power_light_sampler(&lights, &powers);
    let ps = scene.power_light_samplers[0];
    assert_eq!(ps.total, 12);
    assert_eq!(scene.power_light_sampler_data[0].pmf_num, 6);
    assert_eq!(scene.power_light_sampler_data[1].pmf_num, 6);
}

#[test]
fn split_counts_conserve_visits() {
    assert_eq!(render_core::guide::split_counts(5), (3, 2));
    assert_eq!(render_core::guide::split_counts(64), (32, 32));
    assert_eq!(render_core::guide::split_counts(1), (1, 0));
    let (a, b) = render_core::guide::split_counts(0xffff_ffff);
    assert_eq!(a as u64 + b as u64, 0xffff_ffff);
}

#[test]
fn child_ratio_never_exceeds_parent() {
    assert_eq!(render_core::guide::child_ratio(1_000_000, 3, 10), 300_000);
    assert_eq!(render_core::guide::child_ratio(500, 10, 10), 500);
    assert_eq!(render_core::guide::child_ratio(999_999, 1, 3), 333_333);
    assert_eq!(render_core::guide::child_ratio(10_000, 0, 7), 0);
}

fn single_leaf_guide(count: u32) -> PathGuide {
    let mut g = PathGuide::new(1000, 1_000_000);
    g.bsp = vec![BspNode { is_leaf: true, left: NONE_NODE, right: NONE_NODE, count }];
    g.train_tree = Vec::new();
    g
}

#[test]
fn overloaded_leaf_splits_in_two() {
    let mut g = single_leaf_guide(100_000);
    let refined = g.before_sample(4, 0);
    assert!(refined);
    // the leaf was over threshold: it became an internal node whose two
    // children exist, and every leaf's count is back to zero
    assert!(!g.bsp[0].is_leaf);
    let l = g.bsp[0].left as usize;
    let r = g.bsp[0].right as usize;
    assert!(l < g.bsp.len() && r < g.bsp.len() && l != r);
    for n in &g.bsp {
        if n.is_leaf {
            assert_eq!(n.count, 0);
        }
    }
}

#[test]
fn quiet_guide_stays_a_single_seed() {
    let mut g = single_leaf_guide(0);
    let mut boundary = 4u32;
    let mut seed_tree: Option<Vec<QuadNode>> = None;
    for _ in 0..3 {
        assert!(!g.before_sample(boundary - 1, 0));
        let refined = g.before_sample(boundary, 0);
        assert!(refined);
        // no visits recorded: the partition never splits
        assert_eq!(g.bsp.len(), 1);
        assert!(g.bsp[0].is_leaf);
        assert_eq!(g.bsp[0].count, 0);
        // zero flux everywhere: the fresh training tree is the seed again
        match &seed_tree {
            None => seed_tree = Some(g.train_tree.clone()),
            Some(t) => assert_eq!(&g.train_tree, t),
        }
        boundary = g.next_iter;
    }
}

#[test]
fn fresh_guide_carries_the_seed_structures() {
    let g = PathGuide::new(64, 60_000);
    // the seed region splits its 64 starting visits down to 64 quiet
    // leaves (127 partition nodes), each carrying the 85-group
    // low-resolution directional seed; the live guide tree starts as one
    // empty group
    assert_eq!(g.bsp.len(), 127);
    assert_eq!(g.bsp.iter().filter(|n| n.is_leaf).count(), 64);
    assert_eq!(g.train_tree.len(), 64 * 85);
    assert_eq!(g.guide_tree.len(), 1);
    for n in &g.train_tree {
        for c in [n.c0, n.c1, n.c2, n.c3] {
            assert_eq!(c.flux, 0);
        }
    }
}

#[test]
fn guide_schedule_doubles_and_respects_budget() {
    let g = PathGuide::new(1000, 1_000_000);
    assert_eq!(g.next_iter, 4);
    assert_eq!(g.train_budget_samples, 150);
    assert_eq!(g.train_budget_ms, 150_000);
    let mut g = single_leaf_guide(0);
    assert!(g.before_sample(4, 0));
    assert_eq!(g.iter, 1);
    assert_eq!(g.next_iter, 12);
    assert!(g.before_sample(12, 0));
    assert_eq!(g.next_iter, 28);
    // past the sample budget nothing happens
    assert!(!g.before_sample(28, 999_999_999));
    let before = g.bsp.clone();
    assert!(!g.before_sample(29, 0));
    assert_eq!(g.bsp, before);
}

#[test]
fn human_sizes_round_to_tenths() {
    assert_eq!(human_size(512), "  512.0 B");
    assert_eq!(human_size(1536), "    1.5 KiB");
    assert_eq!(human_size(3 * 1024 * 1024), "    3.0 MiB");
    assert_eq!(human_size(5 * 1024 * 1024 * 1024 + 512 * 1024 * 1024), "    5.5 GiB");
    assert_eq!(human_size(0), "    0.0 B");
}

#[test]
fn parse_time_units() {
    assert_eq!(parse_time("10s"), Some(10_000));
    assert_eq!(parse_time("250ms"), Some(250));
    assert_eq!(parse_time("1.5min"), Some(90_000));
    assert_eq!(parse_time("2h"), Some(7_200_000));
    assert_eq!(parse_time("3"), Some(3_000));
    assert_eq!(parse_time("1.5"), Some(1_500));
    assert_eq!(parse_time("2D"), Some(172_800_000));
    assert_eq!(parse_time("4 parsecs"), None);
    assert_eq!(parse_time(""), None);
    assert_eq!(parse_time("1..2s"), None);
    assert_eq!(parse_time("abc"), None);
}

#[test]
fn prim_types_by_name() {
    assert_eq!(prim_type("float"), Some(PrimType::Float));
    assert_eq!(prim_type("uint8"), Some(PrimType::Byte));
    assert_eq!(prim_type("uchar"), Some(PrimType::Byte));
    assert_eq!(prim_type("int"), Some(PrimType::Int));
    assert_eq!(prim_type("uint"), Some(PrimType::Int));
    assert_eq!(prim_type("double"), None);
    assert_eq!(Property::X.ty(), Type::Prim(PrimType::Float));
    assert_eq!(
        Property::Indices(PrimType::Byte, PrimType::Int).ty(),
        Type::List(PrimType::Byte, PrimType::Int)
    );
}

#[test]
fn resolve_paths_like_an_includer() {
    let in_file = vec![String::from("shaders"), String::from("main.wgsl")];
    assert_eq!(
        resolve_path(&in_file, 0, "lib/common.wgsl"),
        Ok(vec![String::from("shaders"), String::from("lib"), String::from("common.wgsl")])
    );
    assert_eq!(resolve_path(&in_file, 0, "./x"), Ok(vec![
        String::from("shaders"),
        String::from("x"),
    ]));
    assert_eq!(resolve_path(&in_file, 0, "../x"), Ok(vec![String::from("x")]));
    assert_eq!(resolve_path(&in_file, 0, "/x"), Ok(vec![String::from("x")]));
    let err = resolve_path(&in_file, 4, "../../x").unwrap_err();
    assert_eq!(err, "shaders/main.wgsl:5: navigating to parent of root is invalid");
}

#[test]
fn pre_process_emits_text_and_imports() {
    let in_file = vec![String::from("shaders"), String::from("main.wgsl")];
    let flags = vec![(String::from("mode"), String::from("guided"))];
    let lines = vec![
        String::from("let x = 1;"),
        String::from("#import lib/a.wgsl"),
        String::from("#importif mode guided b.wgsl"),
        String::from("#importif mode plain c.wgsl"),
    ];
    let pieces = pre_process(&lines, &in_file, &flags).unwrap();
    assert_eq!(pieces.len(), 3);
    assert_eq!(pieces[0], ShaderPiece::Text(String::from("let x = 1;\n")));
    assert_eq!(
        pieces[1],
        ShaderPiece::Include(vec![
            String::from("shaders"),
            String::from("lib"),
            String::from("a.wgsl"),
        ])
    );
    assert_eq!(
        pieces[2],
        ShaderPiece::Include(vec![String::from("shaders"), String::from("b.wgsl")])
    );
    let bad = pre_process(&vec![String::from("#frobnicate")], &in_file, &flags);
    assert_eq!(bad.unwrap_err(), "shaders/main.wgsl:1: unrecognized directive");
    let missing = pre_process(&vec![String::from("#import")], &in_file, &flags);
    assert_eq!(missing.unwrap_err(), "shaders/main.wgsl:1: expected path to import");
}
