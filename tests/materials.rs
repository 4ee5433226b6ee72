use auto_instance::material::{
    hash_color, AlphaMode, ColorBits, Face, MaterialHash, MaterialParams, OpaqueRenderMethod,
    ParallaxMappingMethod,
};
use auto_instance::material_table::{
    consolidate_material_instances, MaterialEntity, MaterialInstances,
};

fn color(r: f32, g: f32, b: f32, a: f32) -> ColorBits {
    ColorBits { r: r.to_bits(), g: g.to_bits(), b: b.to_bits(), a: a.to_bits() }
}

fn base_material() -> MaterialParams {
    MaterialParams {
        base_color: color(1.0, 1.0, 1.0, 1.0),
        base_color_texture: None,
        emissive: color(0.0, 0.0, 0.0, 1.0),
        emissive_texture: None,
        perceptual_roughness: 0.5f32.to_bits(),
        metallic: 0.0f32.to_bits(),
        metallic_roughness_texture: None,
        reflectance: 0.5f32.to_bits(),
        diffuse_transmission: 0.0f32.to_bits(),
        specular_transmission: 0.0f32.to_bits(),
        thickness: 0.0f32.to_bits(),
        ior: 1.5f32.to_bits(),
        attenuation_distance: f32::INFINITY.to_bits(),
        attenuation_color: color(1.0, 1.0, 1.0, 1.0),
        normal_map_texture: None,
        flip_normal_map_y: false,
        occlusion_texture: None,
        double_sided: false,
        cull_mode: Some(Face::Back),
        unlit: false,
        fog_enabled: true,
        alpha_mode: AlphaMode::Opaque,
        depth_bias: 0.0f32.to_bits(),
        depth_map: None,
        parallax_depth_scale: 0.1f32.to_bits(),
        parallax_mapping_method: ParallaxMappingMethod::Occlusion,
        max_parallax_layer_count: 16.0f32.to_bits(),
        opaque_render_method: OpaqueRenderMethod::Auto,
        deferred_lighting_pass_id: 1,
    }
}

fn with_roughness(r: f32) -> MaterialParams {
    let mut m = base_material();
    m.perceptual_roughness = r.to_bits();
    m
}

fn entity(material: u64, params: Option<MaterialParams>) -> MaterialEntity<MaterialParams> {
    MaterialEntity { material, params, marked: true }
}

#[test]
fn identical_parameters_share_fingerprint() {
    let a = base_material();
    let b = base_material();
    assert_eq!(a.generate_hash(), b.generate_hash());
    assert_eq!(a.to_words(), b.to_words());
}

#[test]
fn every_single_field_change_changes_fingerprint() {
    let base = base_material();
    let mut variants: Vec<MaterialParams> = vec![base];
    let mut m = base;
    m.base_color = color(0.9, 1.0, 1.0, 1.0);
    variants.push(m);
    let mut m = base;
    m.base_color_texture = Some(7);
    variants.push(m);
    let mut m = base;
    m.emissive = color(0.0, 0.1, 0.0, 1.0);
    variants.push(m);
    let mut m = base;
    m.emissive_texture = Some(7);
    variants.push(m);
    variants.push(with_roughness(0.6));
    let mut m = base;
    m.metallic = 1.0f32.to_bits();
    variants.push(m);
    let mut m = base;
    m.metallic_roughness_texture = Some(7);
    variants.push(m);
    let mut m = base;
    m.reflectance = 0.4f32.to_bits();
    variants.push(m);
    let mut m = base;
    m.diffuse_transmission = 0.6f32.to_bits();
    variants.push(m);
    let mut m = base;
    m.specular_transmission = 0.6f32.to_bits();
    variants.push(m);
    let mut m = base;
    m.thickness = 0.2f32.to_bits();
    variants.push(m);
    let mut m = base;
    m.ior = 1.33f32.to_bits();
    variants.push(m);
    let mut m = base;
    m.attenuation_distance = 10.0f32.to_bits();
    variants.push(m);
    let mut m = base;
    m.attenuation_color = color(1.0, 0.0, 1.0, 1.0);
    variants.push(m);
    let mut m = base;
    m.normal_map_texture = Some(7);
    variants.push(m);
    let mut m = base;
    m.flip_normal_map_y = true;
    variants.push(m);
    let mut m = base;
    m.occlusion_texture = Some(7);
    variants.push(m);
    let mut m = base;
    m.double_sided = true;
    variants.push(m);
    let mut m = base;
    m.cull_mode = None;
    variants.push(m);
    let mut m = base;
    m.cull_mode = Some(Face::Front);
    variants.push(m);
    let mut m = base;
    m.unlit = true;
    variants.push(m);
    let mut m = base;
    m.fog_enabled = false;
    variants.push(m);
    let mut m = base;
    m.alpha_mode = AlphaMode::Mask(0.5f32.to_bits());
    variants.push(m);
    let mut m = base;
    m.alpha_mode = AlphaMode::Blend;
    variants.push(m);
    let mut m = base;
    m.alpha_mode = AlphaMode::Premultiplied;
    variants.push(m);
    let mut m = base;
    m.alpha_mode = AlphaMode::Add;
    variants.push(m);
    let mut m = base;
    m.alpha_mode = AlphaMode::Multiply;
    variants.push(m);
    let mut m = base;
    m.depth_bias = 1.0f32.to_bits();
    variants.push(m);
    let mut m = base;
    m.depth_map = Some(7);
    variants.push(m);
    let mut m = base;
    m.parallax_depth_scale = 0.2f32.to_bits();
    variants.push(m);
    let mut m = base;
    m.parallax_mapping_method = ParallaxMappingMethod::Relief { max_steps: 5 };
    variants.push(m);
    let mut m = base;
    m.max_parallax_layer_count = 8.0f32.to_bits();
    variants.push(m);
    let mut m = base;
    m.opaque_render_method = OpaqueRenderMethod::Forward;
    variants.push(m);
    let mut m = base;
    m.opaque_render_method = OpaqueRenderMethod::Deferred;
    variants.push(m);
    let mut m = base;
    m.deferred_lighting_pass_id = 2;
    variants.push(m);
    let hashes: Vec<u64> = variants.iter().map(|v| v.generate_hash()).collect();
    for i in 0..hashes.len() {
        for j in (i + 1)..hashes.len() {
            assert_ne!(hashes[i], hashes[j], "variants {} and {} collide", i, j);
        }
    }
}

#[test]
fn signed_zero_is_a_distinct_parameter() {
    let a = with_roughness(0.0);
    let b = with_roughness(-0.0);
    assert_ne!(a.generate_hash(), b.generate_hash());
}

#[test]
fn hash_color_appends_four_channels() {
    let mut words: Vec<u64> = vec![9];
    hash_color(ColorBits { r: 1, g: 2, b: 3, a: 4 }, &mut words);
    assert_eq!(words, vec![9, 1, 2, 3, 4]);
}

#[test]
fn material_words_follow_field_order() {
    let words = base_material().to_words();
    assert_eq!(words.len(), 46);
    assert_eq!(words[0], 1.0f32.to_bits() as u64);
    assert_eq!(words[4], 0);
    assert_eq!(words[45], 1);
}

#[test]
fn first_seen_material_becomes_canonical() {
    let mut table = MaterialInstances::new();
    let mut entities = vec![
        entity(10, Some(base_material())),
        entity(11, Some(base_material())),
        entity(12, Some(base_material())),
    ];
    assert!(consolidate_material_instances(&mut table, &mut entities));
    for e in &entities {
        assert_eq!(e.material, 10);
        assert!(!e.marked);
    }
    assert_eq!(table.duplicate_count(), 2);
    assert_eq!(table.unique_count(), 1);
    assert_eq!(table.canonical_for(base_material().generate_hash()), Some(10));
}

#[test]
fn second_pass_changes_nothing() {
    let mut table = MaterialInstances::new();
    let mut entities = vec![
        entity(1, Some(base_material())),
        entity(2, Some(with_roughness(0.9))),
        entity(3, Some(base_material())),
        entity(4, None),
    ];
    assert!(consolidate_material_instances(&mut table, &mut entities));
    let materials: Vec<u64> = entities.iter().map(|e| e.material).collect();
    let marks: Vec<bool> = entities.iter().map(|e| e.marked).collect();
    assert_eq!(materials, vec![1, 2, 1, 4]);
    assert_eq!(marks, vec![false, false, false, true]);
    assert!(!consolidate_material_instances(&mut table, &mut entities));
    let again: Vec<u64> = entities.iter().map(|e| e.material).collect();
    assert_eq!(again, materials);
    assert_eq!(table.duplicate_count(), 1);
    assert_eq!(table.unique_count(), 2);
}

#[test]
fn unloaded_material_is_retried_later() {
    let mut table = MaterialInstances::new();
    let mut entities = vec![entity(1, Some(base_material())), entity(2, None)];
    consolidate_material_instances(&mut table, &mut entities);
    assert!(entities[1].marked);
    assert_eq!(entities[1].material, 2);
    entities[1].params = Some(base_material());
    assert!(consolidate_material_instances(&mut table, &mut entities));
    assert!(!entities[1].marked);
    assert_eq!(entities[1].material, 1);
    assert_eq!(table.duplicate_count(), 1);
}

#[test]
fn unmarked_entities_are_ignored() {
    let mut table = MaterialInstances::new();
    let mut entities = vec![MaterialEntity { material: 5, params: Some(base_material()), marked: false }];
    assert!(!consolidate_material_instances(&mut table, &mut entities));
    assert_eq!(table.unique_count(), 0);
    assert_eq!(table.canonical_for(base_material().generate_hash()), None);
}

#[test]
fn hundred_entities_ten_materials() {
    let mut table = MaterialInstances::new();
    let mut entities = Vec::new();
    for i in 0..100u64 {
        let kind = i % 10;
        entities.push(entity(1000 + i, Some(with_roughness(kind as f32 / 10.0))));
    }
    assert!(consolidate_material_instances(&mut table, &mut entities));
    assert_eq!(table.unique_count(), 10);
    assert_eq!(table.duplicate_count(), 90);
    for (i, e) in entities.iter().enumerate() {
        assert_eq!(e.material, 1000 + (i as u64 % 10));
    }
}
