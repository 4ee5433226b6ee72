//! The visual parameter set of a material, and its fingerprint.
//!
//! Every floating-point parameter is held as its exact bit pattern, so equal
//! parameter sets are bit-exact equal. A texture is held as the identity token
//! of its asset, `None` where the slot is empty.
use crate::fingerprint::{digest, digest_words};
use vstd::prelude::*;

verus! {

/// A colour as the bit patterns of its four channels.
#[derive(Clone, Copy, Debug, PartialEq, Eq, Structural)]
pub struct ColorBits {
    pub r: u32,
    pub g: u32,
    pub b: u32,
    pub a: u32,
}

/// The face that back-face culling removes.
#[derive(Clone, Copy, Debug, PartialEq, Eq, Structural)]
pub enum Face {
    Front,
    Back,
}

/// How a material blends with what lies behind it; `Mask` holds the bit
/// pattern of its cutoff.
#[derive(Clone, Copy, Debug, PartialEq, Eq, Structural)]
pub enum AlphaMode {
    Opaque,
    Mask(u32),
    Blend,
    Premultiplied,
    Add,
    Multiply,
}

#[derive(Clone, Copy, Debug, PartialEq, Eq, Structural)]
pub enum ParallaxMappingMethod {
    Occlusion,
    Relief { max_steps: u32 },
}

#[derive(Clone, Copy, Debug, PartialEq, Eq, Structural)]
pub enum OpaqueRenderMethod {
    Forward,
    Deferred,
    Auto,
}

/// Every visually relevant field of a standard material.
#[derive(Clone, Copy, Debug, PartialEq, Eq, Structural)]
pub struct MaterialParams {
    pub base_color: ColorBits,
    pub base_color_texture: Option<u64>,
    pub emissive: ColorBits,
    pub emissive_texture: Option<u64>,
    pub perceptual_roughness: u32,
    pub metallic: u32,
    pub metallic_roughness_texture: Option<u64>,
    pub reflectance: u32,
    pub diffuse_transmission: u32,
    pub specular_transmission: u32,
    pub thickness: u32,
    pub ior: u32,
    pub attenuation_distance: u32,
    pub attenuation_color: ColorBits,
    pub normal_map_texture: Option<u64>,
    pub flip_normal_map_y: bool,
    pub occlusion_texture: Option<u64>,
    pub double_sided: bool,
    pub cull_mode: Option<Face>,
    pub unlit: bool,
    pub fog_enabled: bool,
    pub alpha_mode: AlphaMode,
    pub depth_bias: u32,
    pub depth_map: Option<u64>,
    pub parallax_depth_scale: u32,
    pub parallax_mapping_method: ParallaxMappingMethod,
    pub max_parallax_layer_count: u32,
    pub opaque_render_method: OpaqueRenderMethod,
    pub deferred_lighting_pass_id: u8,
}

pub open spec fn color_words(c: ColorBits) -> Seq<u64> {
    seq![c.r as u64, c.g as u64, c.b as u64, c.a as u64]
}

pub open spec fn texture_words(t: Option<u64>) -> Seq<u64> {
    match t {
        None => seq![0u64, 0u64],
        Some(id) => seq![1u64, id],
    }
}

pub open spec fn scalar_words(x: u32) -> Seq<u64> {
    seq![x as u64]
}

pub open spec fn flag_words(b: bool) -> Seq<u64> {
    seq![if b { 1u64 } else { 0u64 }]
}

pub open spec fn cull_words(c: Option<Face>) -> Seq<u64> {
    match c {
        None => seq![0u64],
        Some(Face::Front) => seq![1u64],
        Some(Face::Back) => seq![2u64],
    }
}

pub open spec fn alpha_words(a: AlphaMode) -> Seq<u64> {
    match a {
        AlphaMode::Opaque => seq![0u64, 0u64],
        AlphaMode::Mask(cutoff) => seq![1u64, cutoff as u64],
        AlphaMode::Blend => seq![2u64, 0u64],
        AlphaMode::Premultiplied => seq![3u64, 0u64],
        AlphaMode::Add => seq![4u64, 0u64],
        AlphaMode::Multiply => seq![5u64, 0u64],
    }
}

pub open spec fn parallax_words(p: ParallaxMappingMethod) -> Seq<u64> {
    match p {
        ParallaxMappingMethod::Occlusion => seq![0u64, 0u64],
        ParallaxMappingMethod::Relief { max_steps } => seq![1u64, max_steps as u64],
    }
}

pub open spec fn render_method_words(m: OpaqueRenderMethod) -> Seq<u64> {
    match m {
        OpaqueRenderMethod::Forward => seq![0u64],
        OpaqueRenderMethod::Deferred => seq![1u64],
        OpaqueRenderMethod::Auto => seq![2u64],
    }
}

impl MaterialParams {
    /// The words that the fingerprint folds, field by field in a fixed order.
    pub open spec fn words(self) -> Seq<u64> {
        color_words(self.base_color) + texture_words(self.base_color_texture) + color_words(
            self.emissive,
        ) + texture_words(self.emissive_texture) + scalar_words(self.perceptual_roughness)
            + scalar_words(self.metallic) + texture_words(self.metallic_roughness_texture)
            + scalar_words(self.reflectance) + scalar_words(self.diffuse_transmission)
            + scalar_words(self.specular_transmission) + scalar_words(self.thickness)
            + scalar_words(self.ior) + scalar_words(self.attenuation_distance) + color_words(
            self.attenuation_color,
        ) + texture_words(self.normal_map_texture) + flag_words(self.flip_normal_map_y)
            + texture_words(self.occlusion_texture) + flag_words(self.double_sided) + cull_words(
            self.cull_mode,
        ) + flag_words(self.unlit) + flag_words(self.fog_enabled) + alpha_words(self.alpha_mode)
            + scalar_words(self.depth_bias) + texture_words(self.depth_map) + scalar_words(
            self.parallax_depth_scale,
        ) + parallax_words(self.parallax_mapping_method) + scalar_words(
            self.max_parallax_layer_count,
        ) + render_method_words(self.opaque_render_method) + scalar_words(
            self.deferred_lighting_pass_id as u32,
        )
    }

    /// The material fingerprint: the digest of the parameter words.
    pub open spec fn fingerprint_of(self) -> u64 {
        digest(self.words())
    }
}

/// Appends the bit patterns of the four channels of `c` to `v`.
pub fn hash_color(c: ColorBits, v: &mut Vec<u64>)
    ensures
        final(v)@ == old(v)@ + color_words(c),
{
    v.push(c.r as u64);
    v.push(c.g as u64);
    v.push(c.b as u64);
    v.push(c.a as u64);
    assert(final(v)@ =~= old(v)@ + color_words(c));
}

fn push_texture(v: &mut Vec<u64>, t: Option<u64>)
    ensures
        final(v)@ == old(v)@ + texture_words(t),
{
    match t {
        None => {
            v.push(0);
            v.push(0);
        },
        Some(id) => {
            v.push(1);
            v.push(id);
        },
    }
    assert(final(v)@ =~= old(v)@ + texture_words(t));
}

fn push_scalar(v: &mut Vec<u64>, x: u32)
    ensures
        final(v)@ == old(v)@ + scalar_words(x),
{
    v.push(x as u64);
    assert(final(v)@ =~= old(v)@ + scalar_words(x));
}

fn push_flag(v: &mut Vec<u64>, b: bool)
    ensures
        final(v)@ == old(v)@ + flag_words(b),
{
    v.push(if b { 1 } else { 0 });
    assert(final(v)@ =~= old(v)@ + flag_words(b));
}

fn push_cull(v: &mut Vec<u64>, c: Option<Face>)
    ensures
        final(v)@ == old(v)@ + cull_words(c),
{
    let w: u64 = match c {
        None => 0,
        Some(Face::Front) => 1,
        Some(Face::Back) => 2,
    };
    v.push(w);
    assert(final(v)@ =~= old(v)@ + cull_words(c));
}

fn push_alpha(v: &mut Vec<u64>, a: AlphaMode)
    ensures
        final(v)@ == old(v)@ + alpha_words(a),
{
    let (tag, payload): (u64, u64) = match a {
        AlphaMode::Opaque => (0, 0),
        AlphaMode::Mask(cutoff) => (1, cutoff as u64),
        AlphaMode::Blend => (2, 0),
        AlphaMode::Premultiplied => (3, 0),
        AlphaMode::Add => (4, 0),
        AlphaMode::Multiply => (5, 0),
    };
    v.push(tag);
    v.push(payload);
    assert(final(v)@ =~= old(v)@ + alpha_words(a));
}

fn push_parallax(v: &mut Vec<u64>, p: ParallaxMappingMethod)
    ensures
        final(v)@ == old(v)@ + parallax_words(p),
{
    let (tag, payload): (u64, u64) = match p {
        ParallaxMappingMethod::Occlusion => (0, 0),
        ParallaxMappingMethod::Relief { max_steps } => (1, max_steps as u64),
    };
    v.push(tag);
    v.push(payload);
    assert(final(v)@ =~= old(v)@ + parallax_words(p));
}

fn push_render_method(v: &mut Vec<u64>, m: OpaqueRenderMethod)
    ensures
        final(v)@ == old(v)@ + render_method_words(m),
{
    let w: u64 = match m {
        OpaqueRenderMethod::Forward => 0,
        OpaqueRenderMethod::Deferred => 1,
        OpaqueRenderMethod::Auto => 2,
    };
    v.push(w);
    assert(final(v)@ =~= old(v)@ + render_method_words(m));
}

impl MaterialParams {
    /// The parameter words, in the order that the fingerprint folds them.
    pub fn to_words(&self) -> (r: Vec<u64>)
        ensures
            r@ == self.words(),
    {
        let mut v: Vec<u64> = Vec::new();
        hash_color(self.base_color, &mut v);
        assert(v@ =~= color_words(self.base_color));
        push_texture(&mut v, self.base_color_texture);
        hash_color(self.emissive, &mut v);
        push_texture(&mut v, self.emissive_texture);
        push_scalar(&mut v, self.perceptual_roughness);
        push_scalar(&mut v, self.metallic);
        push_texture(&mut v, self.metallic_roughness_texture);
        push_scalar(&mut v, self.reflectance);
        push_scalar(&mut v, self.diffuse_transmission);
        push_scalar(&mut v, self.specular_transmission);
        push_scalar(&mut v, self.thickness);
        push_scalar(&mut v, self.ior);
        push_scalar(&mut v, self.attenuation_distance);
        hash_color(self.attenuation_color, &mut v);
        push_texture(&mut v, self.normal_map_texture);
        push_flag(&mut v, self.flip_normal_map_y);
        push_texture(&mut v, self.occlusion_texture);
        push_flag(&mut v, self.double_sided);
        push_cull(&mut v, self.cull_mode);
        push_flag(&mut v, self.unlit);
        push_flag(&mut v, self.fog_enabled);
        push_alpha(&mut v, self.alpha_mode);
        push_scalar(&mut v, self.depth_bias);
        push_texture(&mut v, self.depth_map);
        push_scalar(&mut v, self.parallax_depth_scale);
        push_parallax(&mut v, self.parallax_mapping_method);
        push_scalar(&mut v, self.max_parallax_layer_count);
        push_render_method(&mut v, self.opaque_render_method);
        push_scalar(&mut v, self.deferred_lighting_pass_id as u32);
        v
    }

}

/// A material type whose visual parameters can be fingerprinted.
pub trait MaterialHash {
    /// The fingerprint of this material's visual parameters.
    spec fn fingerprint_spec(&self) -> u64;

    fn generate_hash(&self) -> (r: u64)
        ensures
            r == self.fingerprint_spec(),
    ;
}

impl MaterialHash for MaterialParams {
    open spec fn fingerprint_spec(&self) -> u64 {
        self.fingerprint_of()
    }

    /// The material fingerprint over every visual parameter.
    fn generate_hash(&self) -> (r: u64) {
        let words = self.to_words();
        digest_words(&words)
    }
}

/// Materials with identical visual parameters, bit patterns included, have
/// the same fingerprint.
pub proof fn lemma_equal_params_equal_fingerprint(a: MaterialParams, b: MaterialParams)
    requires
        a == b,
    ensures
        a.fingerprint_of() == b.fingerprint_of(),
{
}

proof fn lemma_concat_cancel(x1: Seq<u64>, y1: Seq<u64>, x2: Seq<u64>, y2: Seq<u64>)
    requires
        x1 + y1 == x2 + y2,
        y1.len() == y2.len(),
    ensures
        x1 == x2,
        y1 == y2,
{
    assert(x1 =~= (x1 + y1).take(x1.len() as int));
    assert(x2 =~= (x2 + y2).take(x2.len() as int));
    assert(y1 =~= (x1 + y1).skip(x1.len() as int));
    assert(y2 =~= (x2 + y2).skip(x2.len() as int));
}

/// Materials that differ in any field hand different word sequences to the
/// hasher: the encoding of the parameter set loses nothing.
pub proof fn lemma_distinct_params_distinct_words(a: MaterialParams, b: MaterialParams)
    requires
        a != b,
    ensures
        a.words() != b.words(),
{
    if a.words() == b.words() {
        assert forall|x1: Seq<u64>, y1: Seq<u64>, x2: Seq<u64>, y2: Seq<u64>|
            #![trigger x1 + y1, x2 + y2]
            x1 + y1 == x2 + y2 && y1.len() == y2.len() implies x1 == x2 && y1 == y2 by {
            lemma_concat_cancel(x1, y1, x2, y2);
        }
        assert forall|c1: ColorBits, c2: ColorBits|
            #![trigger color_words(c1), color_words(c2)]
            color_words(c1).len() == 4 && (color_words(c1) == color_words(c2) ==> c1 == c2) by {
            if color_words(c1) == color_words(c2) {
                assert(color_words(c1)[0] == color_words(c2)[0]);
                assert(color_words(c1)[1] == color_words(c2)[1]);
                assert(color_words(c1)[2] == color_words(c2)[2]);
                assert(color_words(c1)[3] == color_words(c2)[3]);
            }
        }
        assert forall|t1: Option<u64>, t2: Option<u64>|
            #![trigger texture_words(t1), texture_words(t2)]
            texture_words(t1).len() == 2 && (texture_words(t1) == texture_words(t2) ==> t1
                == t2) by {
            if texture_words(t1) == texture_words(t2) {
                assert(texture_words(t1)[0] == texture_words(t2)[0]);
                assert(texture_words(t1)[1] == texture_words(t2)[1]);
            }
        }
        assert forall|x1: u32, x2: u32|
            #![trigger scalar_words(x1), scalar_words(x2)]
            scalar_words(x1).len() == 1 && (scalar_words(x1) == scalar_words(x2) ==> x1 == x2) by {
            if scalar_words(x1) == scalar_words(x2) {
                assert(scalar_words(x1)[0] == scalar_words(x2)[0]);
            }
        }
        assert forall|f1: bool, f2: bool|
            #![trigger flag_words(f1), flag_words(f2)]
            flag_words(f1).len() == 1 && (flag_words(f1) == flag_words(f2) ==> f1 == f2) by {
            if flag_words(f1) == flag_words(f2) {
                assert(flag_words(f1)[0] == flag_words(f2)[0]);
            }
        }
        assert forall|c1: Option<Face>, c2: Option<Face>|
            #![trigger cull_words(c1), cull_words(c2)]
            cull_words(c1).len() == 1 && (cull_words(c1) == cull_words(c2) ==> c1 == c2) by {
            if cull_words(c1) == cull_words(c2) {
                assert(cull_words(c1)[0] == cull_words(c2)[0]);
            }
        }
        assert forall|m1: AlphaMode, m2: AlphaMode|
            #![trigger alpha_words(m1), alpha_words(m2)]
            alpha_words(m1).len() == 2 && (alpha_words(m1) == alpha_words(m2) ==> m1 == m2) by {
            if alpha_words(m1) == alpha_words(m2) {
                assert(alpha_words(m1)[0] == alpha_words(m2)[0]);
                assert(alpha_words(m1)[1] == alpha_words(m2)[1]);
            }
        }
        assert forall|p1: ParallaxMappingMethod, p2: ParallaxMappingMethod|
            #![trigger parallax_words(p1), parallax_words(p2)]
            parallax_words(p1).len() == 2 && (parallax_words(p1) == parallax_words(p2) ==> p1
                == p2) by {
            if parallax_words(p1) == parallax_words(p2) {
                assert(parallax_words(p1)[0] == parallax_words(p2)[0]);
                assert(parallax_words(p1)[1] == parallax_words(p2)[1]);
            }
        }
        assert forall|r1: OpaqueRenderMethod, r2: OpaqueRenderMethod|
            #![trigger render_method_words(r1), render_method_words(r2)]
            render_method_words(r1).len() == 1 && (render_method_words(r1) == render_method_words(
                r2,
            ) ==> r1 == r2) by {
            if render_method_words(r1) == render_method_words(r2) {
                assert(render_method_words(r1)[0] == render_method_words(r2)[0]);
            }
        }
        assert(a == b);
    }
}

} // verus!
