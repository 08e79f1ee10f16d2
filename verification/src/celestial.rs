//! A celestial body and its tree of children, with recursive time-stepping.

use vstd::prelude::*;
use crate::orbital::{spec_step, OrbitalParameters};

verus! {

/// Closed classification of a celestial body.
#[derive(Clone, Copy, PartialEq, Eq, Structural, Debug)]
pub enum ObjectType {
    /// A star.
    Star,
    /// A rocky body: an asteroid or a rocky planet.
    Rocky,
    /// A Jovian-style gas giant.
    Jovian,
    /// An icy giant.
    IceGiant,
}

/// One celestial body: identity, physical attributes, orbital elements and
/// the bodies that orbit it.
pub struct Object {
    /// Identifier, unique only among its siblings.
    pub name: String,
    /// Classification tag.
    pub object_type: ObjectType,
    /// Mass in whole kilograms.
    pub mass: u128,
    /// Radius in micro-kilometres (millimetres).
    pub radius: u64,
    /// The body's own orbital elements around its parent.
    pub orbital_params: OrbitalParameters,
    /// Gas species and femto-scaled fractional abundance, in insertion
    /// order.
    pub atmosphere: Vec<(String, u64)>,
    /// The bodies orbiting this one, in document order.
    pub children: Vec<Object>,
}

/// The mathematical shadow of an [`Object`]: sequences in place of vectors
/// and character sequences in place of strings.
#[verifier::ext_equal]
pub struct ObjModel {
    pub name: Seq<char>,
    pub object_type: ObjectType,
    pub mass: u128,
    pub radius: u64,
    pub orbital_params: OrbitalParameters,
    pub atmosphere: Seq<(Seq<char>, u64)>,
    pub children: Seq<ObjModel>,
}

/// The model of an atmosphere listing.
pub open spec fn atmo_model(s: Seq<(String, u64)>) -> Seq<(Seq<char>, u64)> {
    s.map_values(|p: (String, u64)| (p.0@, p.1))
}

/// The model of one body.
pub open spec fn model_of(o: Object) -> ObjModel
    decreases o,
{
    ObjModel {
        name: o.name@,
        object_type: o.object_type,
        mass: o.mass,
        radius: o.radius,
        orbital_params: o.orbital_params,
        atmosphere: atmo_model(o.atmosphere@),
        children: models_of(o.children@),
    }
}

/// The models of a sequence of bodies.
pub open spec fn models_of(s: Seq<Object>) -> Seq<ObjModel>
    decreases s,
{
    if s.len() == 0 {
        Seq::empty()
    } else {
        models_of(s.drop_last()).push(model_of(s.last()))
    }
}

impl View for Object {
    type V = ObjModel;

    open spec fn view(&self) -> ObjModel {
        model_of(*self)
    }
}

pub proof fn lemma_models_of_index(s: Seq<Object>)
    ensures
        models_of(s).len() == s.len(),
        forall|i: int| 0 <= i < s.len() ==> models_of(s)[i] == model_of(#[trigger] s[i]),
    decreases s,
{
    if s.len() > 0 {
        lemma_models_of_index(s.drop_last());
        assert forall|i: int| 0 <= i < s.len() implies models_of(s)[i] == model_of(
            #[trigger] s[i],
        ) by {
            if i < s.len() - 1 {
                assert(s.drop_last()[i] == s[i]);
                assert(models_of(s)[i] == models_of(s.drop_last())[i]);
            } else {
                assert(s.last() == s[i]);
            }
        }
    }
}

/// What a step does to one body: its own elements advance, then every
/// child's, recursively, with the same elapsed time.
pub open spec fn spec_step_model(m: ObjModel, t: int) -> ObjModel
    decreases m,
{
    ObjModel {
        orbital_params: spec_step(m.orbital_params, t),
        children: spec_step_models(m.children, t),
        ..m
    }
}

pub open spec fn spec_step_models(s: Seq<ObjModel>, t: int) -> Seq<ObjModel>
    decreases s,
{
    if s.len() == 0 {
        Seq::empty()
    } else {
        spec_step_models(s.drop_last(), t).push(spec_step_model(s.last(), t))
    }
}

pub proof fn lemma_step_models_index(s: Seq<ObjModel>, t: int)
    ensures
        spec_step_models(s, t).len() == s.len(),
        forall|i: int| 0 <= i < s.len() ==> spec_step_models(s, t)[i] == spec_step_model(
            #[trigger] s[i],
            t,
        ),
    decreases s,
{
    if s.len() > 0 {
        lemma_step_models_index(s.drop_last(), t);
        assert forall|i: int| 0 <= i < s.len() implies spec_step_models(s, t)[i]
            == spec_step_model(#[trigger] s[i], t) by {
            if i < s.len() - 1 {
                assert(s.drop_last()[i] == s[i]);
                assert(spec_step_models(s, t)[i] == spec_step_models(s.drop_last(), t)[i]);
            } else {
                assert(s.last() == s[i]);
            }
        }
    }
}

/// Every body in the tree holds a mean anomaly in its canonical range.
pub open spec fn model_wf(m: ObjModel) -> bool
    decreases m,
{
    m.orbital_params.well_formed() && (forall|i: int|
        0 <= i < m.children.len() ==> model_wf(#[trigger] m.children[i]))
}

/// Stepping the tree keeps every body's mean anomaly in its canonical
/// range.
pub proof fn lemma_step_model_wf(m: ObjModel, t: int)
    requires
        model_wf(m),
        t >= 0,
    ensures
        model_wf(spec_step_model(m, t)),
    decreases m,
{
    crate::orbital::lemma_step_wf(m.orbital_params, t);
    lemma_step_models_index(m.children, t);
    let stepped = spec_step_model(m, t);
    assert forall|i: int| 0 <= i < stepped.children.len() implies model_wf(
        #[trigger] stepped.children[i],
    ) by {
        assert(stepped.children[i] == spec_step_model(m.children[i], t));
        lemma_step_model_wf(m.children[i], t);
    }
}

fn step_tree(o: Object, elapsed_seconds: u64) -> (r: Object)
    ensures
        r@ == spec_step_model(o@, elapsed_seconds as int),
    decreases o,
{
    let Object { name, object_type, mass, radius, mut orbital_params, atmosphere, children } = o;
    orbital_params.step_forward(elapsed_seconds);
    let mut rest = children;
    let mut stepped: Vec<Object> = Vec::new();
    proof {
        assert(rest@ =~= o.children@.subrange(0, o.children@.len() as int));
    }
    while rest.len() > 0
        invariant
            stepped@.len() + rest@.len() == o.children@.len(),
            rest@ =~= o.children@.subrange(
                stepped@.len() as int,
                o.children@.len() as int,
            ),
            forall|j: int| 0 <= j < stepped@.len() ==> model_of(#[trigger] stepped@[j])
                == spec_step_model(model_of(o.children@[j]), elapsed_seconds as int),
        decreases rest@.len(),
    {
        let c = rest.remove(0);
        proof {
            assert(c == o.children@[stepped@.len() as int]);
            assert(decreases_to!(o => o.children));
            assert(decreases_to!(o.children => o.children@));
            assert(decreases_to!(o.children@ => c));
        }
        let c2 = step_tree(c, elapsed_seconds);
        stepped.push(c2);
    }
    proof {
        let t = elapsed_seconds as int;
        lemma_models_of_index(o.children@);
        lemma_models_of_index(stepped@);
        lemma_step_models_index(models_of(o.children@), t);
        assert forall|j: int| 0 <= j < stepped@.len() implies models_of(stepped@)[j]
            == spec_step_models(models_of(o.children@), t)[j] by {
            assert(models_of(stepped@)[j] == model_of(stepped@[j]));
            assert(model_of(stepped@[j]) == spec_step_model(model_of(o.children@[j]), t));
            assert(spec_step_models(models_of(o.children@), t)[j] == spec_step_model(
                models_of(o.children@)[j],
                t,
            ));
        }
        assert(rest@.len() == 0);
        assert(stepped@.len() == o.children@.len());
        assert(models_of(stepped@).len() == stepped@.len());
        assert(spec_step_models(models_of(o.children@), t).len() == models_of(o.children@).len());
        assert(models_of(stepped@) =~= spec_step_models(models_of(o.children@), t));
    }
    let r = Object {
        name,
        object_type,
        mass,
        radius,
        orbital_params,
        atmosphere,
        children: stepped,
    };
    proof {
        assert(r@ =~= spec_step_model(o@, elapsed_seconds as int));
    }
    r
}

impl Object {
    /// Advance this body's own orbital elements by `elapsed_seconds`, then
    /// every child's, in order, recursively, with the same elapsed time.
    pub fn step_forward(&mut self, elapsed_seconds: u64)
        ensures
            final(self)@ == spec_step_model(old(self)@, elapsed_seconds as int),
    {
        // The recursion works on an owned tree, so the tree is swapped out
        // against a placeholder and the stepped tree swapped back in.
        let mut taken = Object {
            name: String::new(),
            object_type: ObjectType::Star,
            mass: 0,
            radius: 0,
            orbital_params: OrbitalParameters::stationary(),
            atmosphere: Vec::new(),
            children: Vec::new(),
        };
        core::mem::swap(self, &mut taken);
        let stepped = step_tree(taken, elapsed_seconds);
        *self = stepped;
    }
}

} // verus!
