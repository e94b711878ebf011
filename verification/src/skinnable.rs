use std::sync::Arc;
use vstd::prelude::*;

verus! {

/// Things that a material can be applied to.
pub trait Skinnable<M>: Sized {
    type Target;

    /// Whether `target` is this thing drawn with `material`.
    spec fn spec_skins_into(&self, material: M, target: Self::Target) -> bool;

    /// Applies a material that may be shared with other things.
    fn apply_shared_material(self, material: Arc<M>) -> (r: Self::Target)
        ensures
            self.spec_skins_into(*material, r),
    ;

    /// Applies a material owned by this thing alone.
    fn apply_material(self, material: M) -> (r: Self::Target)
        ensures
            self.spec_skins_into(material, r),
    {
        self.apply_shared_material(Arc::new(material))
    }
}

/// Marks a type whose skinned form is a `Skinned` wrapper around it.
pub trait DefaultSkinnable {}

/// A primitive together with the material it is drawn with.
#[derive(Debug)]
pub struct Skinned<P, M> {
    primitive: P,
    material: Arc<M>,
}

impl<P, M> Skinned<P, M> {
    pub closed spec fn spec_primitive(&self) -> P {
        self.primitive
    }

    pub closed spec fn spec_material(&self) -> M {
        *self.material
    }

    pub fn new(primitive: P, material: Arc<M>) -> (s: Self)
        ensures
            s.spec_primitive() == primitive,
            s.spec_material() == *material,
    {
        Skinned { primitive, material }
    }

    /// The primitive and its material, taken apart.
    pub fn split(self) -> (r: (P, Arc<M>))
        ensures
            r.0 == self.spec_primitive(),
            *r.1 == self.spec_material(),
    {
        (self.primitive, self.material)
    }

    /// The primitive that is drawn.
    pub fn primitive(&self) -> (p: &P)
        ensures
            *p == self.spec_primitive(),
    {
        &self.primitive
    }
}

impl<P: Clone, M> Clone for Skinned<P, M> {
    fn clone(&self) -> (s: Self)
        ensures
            s.spec_material() == self.spec_material(),
    {
        Skinned { primitive: self.primitive.clone(), material: self.material.clone() }
    }
}

impl<M, S: DefaultSkinnable> Skinnable<M> for S {
    type Target = Skinned<S, M>;

    /// The thing is wrapped with the material.
    open spec fn spec_skins_into(&self, material: M, target: Skinned<S, M>) -> bool {
        target.spec_primitive() == *self && target.spec_material() == material
    }

    fn apply_shared_material(self, material: Arc<M>) -> (s: Skinned<S, M>) {
        Skinned::new(self, material)
    }
}

impl<P, M> Skinnable<M> for Skinned<P, M> {
    type Target = Self;

    /// A skinned primitive takes the new material in place of the old one.
    open spec fn spec_skins_into(&self, material: M, target: Self) -> bool {
        target.spec_primitive() == self.spec_primitive() && target.spec_material() == material
    }

    fn apply_shared_material(self, material: Arc<M>) -> (s: Self) {
        Skinned { primitive: self.primitive, material }
    }
}

} // verus!
