//! The object-schema loader: from a document tree to a celestial tree.
//!
//! Two failure channels are kept deliberately distinct: a node-level parse
//! aborts the whole load (missing `type`, `mass` or `radius`, or an
//! unrecognized kind token), while a malformed atmosphere entry or a
//! malformed `parentTo` child entry is silently dropped and its siblings
//! go on parsing.

use vstd::prelude::*;
use crate::celestial::{atmo_model, model_of, model_wf, models_of, ObjModel, Object, ObjectType};
use crate::doc::{spec_get, spec_node_get, str_eq, YamlNode};
use crate::num::{parse_decimal, scaled, spec_parse_decimal, spec_scaled, Decimal};
use crate::orbital::{spec_stationary, OrbitalParameters, TURN_FEMTO};

verus! {

/// Nesting depth beyond which an object definition is rejected.
pub const MAX_DEPTH: u32 = 100;

/// Why a load failed.
#[derive(Debug)]
pub enum LoadError {
    /// The source could not be read or recognized at all.
    UnreadableSource(String),
    /// A structural shape violation: no object at top level, or a broken
    /// system wrapper.
    MalformedInput(String),
    /// A required field is absent (or not of the required kind) on the
    /// named object.
    MissingField { object: String, field: String },
    /// The named object carries an unrecognized kind token.
    InvalidObjectType { object: String },
}

/// The mathematical shadow of a [`LoadError`].
pub enum ErrModel {
    UnreadableSource(Seq<char>),
    MalformedInput(Seq<char>),
    MissingField { object: Seq<char>, field: Seq<char> },
    InvalidObjectType { object: Seq<char> },
}

impl View for LoadError {
    type V = ErrModel;

    open spec fn view(&self) -> ErrModel {
        match self {
            LoadError::UnreadableSource(m) => ErrModel::UnreadableSource(m@),
            LoadError::MalformedInput(m) => ErrModel::MalformedInput(m@),
            LoadError::MissingField { object, field } => ErrModel::MissingField {
                object: object@,
                field: field@,
            },
            LoadError::InvalidObjectType { object } => ErrModel::InvalidObjectType {
                object: object@,
            },
        }
    }
}

/// The load result, at the model level.
pub open spec fn res_model(r: Result<Object, LoadError>) -> Result<ObjModel, ErrModel> {
    match r {
        Result::Ok(o) => Ok(o@),
        Result::Err(e) => Err(e@),
    }
}

/// The decimal carried by a number scalar.
pub open spec fn spec_node_num(n: YamlNode) -> Option<Decimal> {
    match n {
        YamlNode::Num(t) => spec_parse_decimal(t@),
        _ => None,
    }
}

/// The decimal at `key` under `node`, when present and numeric.
pub open spec fn spec_field_dec(node: YamlNode, key: Seq<char>) -> Option<Decimal> {
    match spec_node_get(node, key) {
        Option::Some(v) => spec_node_num(v),
        Option::None => None,
    }
}

/// The fixed-point value at `key` under `node`.
pub open spec fn spec_field_scaled(node: YamlNode, key: Seq<char>, scale: int, max: u128) -> Option<
    u128,
> {
    match spec_field_dec(node, key) {
        Option::Some(d) => Some(spec_scaled(d, scale, max)),
        Option::None => None,
    }
}

fn node_num(n: &YamlNode) -> (r: Option<Decimal>)
    ensures
        r == spec_node_num(*n),
{
    match n {
        YamlNode::Num(t) => parse_decimal(t.as_str()),
        _ => None,
    }
}

fn field_dec(node: &YamlNode, key: &str) -> (r: Option<Decimal>)
    ensures
        r == spec_field_dec(*node, key@),
{
    match node.get(key) {
        Option::Some(v) => node_num(v),
        Option::None => None,
    }
}

fn field_scaled(node: &YamlNode, key: &str, scale: u32, max: u128) -> (r: Option<u128>)
    requires
        scale <= 100,
    ensures
        r == spec_field_scaled(*node, key@, scale as int, max),
{
    match field_dec(node, key) {
        Option::Some(d) => Some(scaled(&d, scale, max)),
        Option::None => None,
    }
}

/// A parsed mean anomaly, reduced to `[0, TURN_FEMTO)`; a negative input
/// wraps around the turn.
pub open spec fn spec_anomaly_femto(d: Decimal) -> u64 {
    let mag = spec_scaled(
        Decimal { neg: false, mantissa: d.mantissa, exponent: d.exponent },
        15,
        u128::MAX,
    ) as int;
    let r = mag % (TURN_FEMTO as int);
    if d.neg && r != 0 {
        (TURN_FEMTO as int - r) as u64
    } else {
        r as u64
    }
}

fn anomaly_femto(d: &Decimal) -> (r: u64)
    ensures
        r == spec_anomaly_femto(*d),
        r < TURN_FEMTO,
{
    let mag: u128 = scaled(
        &Decimal { neg: false, mantissa: d.mantissa, exponent: d.exponent },
        15,
        u128::MAX,
    );
    proof {
        vstd::arithmetic::div_mod::lemma_mod_division_less_than_divisor(
            mag as int,
            TURN_FEMTO as int,
        );
        vstd::arithmetic::div_mod::lemma_mod_bound(mag as int, TURN_FEMTO as int);
    }
    let rem: u64 = (mag % (TURN_FEMTO as u128)) as u64;
    if d.neg && rem != 0 {
        TURN_FEMTO - rem
    } else {
        rem
    }
}

/// The classification tag for an uppercase kind token.
pub open spec fn spec_kind(t: Seq<char>) -> Option<ObjectType> {
    if t == "STAR"@ {
        Some(ObjectType::Star)
    } else if t == "ROCKY"@ {
        Some(ObjectType::Rocky)
    } else if t == "JOVIAN"@ {
        Some(ObjectType::Jovian)
    } else if t == "ICE_GIANT"@ {
        Some(ObjectType::IceGiant)
    } else {
        None
    }
}

fn parse_kind(t: &str) -> (r: Option<ObjectType>)
    ensures
        r == spec_kind(t@),
{
    if str_eq(t, "STAR") {
        Some(ObjectType::Star)
    } else if str_eq(t, "ROCKY") {
        Some(ObjectType::Rocky)
    } else if str_eq(t, "JOVIAN") {
        Some(ObjectType::Jovian)
    } else if str_eq(t, "ICE_GIANT") {
        Some(ObjectType::IceGiant)
    } else {
        None
    }
}

/// The orbital elements of an object definition: the four orbital fields
/// are optional as a group; any of them missing or non-numeric makes the
/// whole group fall back to the stationary all-zero elements.
pub open spec fn spec_orbit_of(node: YamlNode) -> OrbitalParameters {
    let sma = spec_field_dec(node, "semi-major-axis"@);
    let ecc = spec_field_dec(node, "eccentricity"@);
    let lop = spec_field_dec(node, "longitude-of-periapsis"@);
    let ma = spec_field_dec(node, "mean-anomaly"@);
    if sma is Some && ecc is Some && lop is Some && ma is Some {
        OrbitalParameters {
            semi_major_axis: spec_scaled(sma->0, 0, u64::MAX as u128) as u64,
            eccentricity: spec_scaled(ecc->0, 15, u64::MAX as u128) as u64,
            longitude_of_periapsis: spec_scaled(lop->0, 0, 65535) as u16,
            mean_anomaly: spec_anomaly_femto(ma->0),
        }
    } else {
        spec_stationary()
    }
}

fn orbit_of(node: &YamlNode) -> (r: OrbitalParameters)
    ensures
        r == spec_orbit_of(*node),
        r.well_formed(),
{
    let sma = field_dec(node, "semi-major-axis");
    let ecc = field_dec(node, "eccentricity");
    let lop = field_dec(node, "longitude-of-periapsis");
    let ma = field_dec(node, "mean-anomaly");
    match (sma, ecc, lop, ma) {
        (Option::Some(s), Option::Some(e), Option::Some(l), Option::Some(m)) => {
            OrbitalParameters {
                semi_major_axis: scaled(&s, 0, u64::MAX as u128) as u64,
                eccentricity: scaled(&e, 15, u64::MAX as u128) as u64,
                longitude_of_periapsis: scaled(&l, 0, 65535) as u16,
                mean_anomaly: anomaly_femto(&m),
            }
        },
        _ => OrbitalParameters::stationary(),
    }
}

/// The atmosphere listing of a mapping: an entry with a non-string key or
/// a non-numeric value is dropped, the others keep document order.
pub open spec fn spec_atmo_entries(es: Seq<(YamlNode, YamlNode)>) -> Seq<(Seq<char>, u64)>
    decreases es.len(),
{
    if es.len() == 0 {
        Seq::empty()
    } else {
        let rest = spec_atmo_entries(es.drop_first());
        if es[0].0 is Str && spec_node_num(es[0].1) is Some {
            seq![
                (es[0].0->Str_0@, spec_scaled(spec_node_num(es[0].1)->0, 15, u64::MAX as u128)
                    as u64),
            ] + rest
        } else {
            rest
        }
    }
}

/// The atmosphere of an object definition; absent or non-mapping means
/// empty.
pub open spec fn spec_atmo_of(node: YamlNode) -> Seq<(Seq<char>, u64)> {
    match spec_node_get(node, "atmosphere"@) {
        Option::Some(YamlNode::Mapping(es)) => spec_atmo_entries(es@),
        _ => Seq::empty(),
    }
}

fn atmo_entries(es: &Vec<(YamlNode, YamlNode)>) -> (r: Vec<(String, u64)>)
    ensures
        atmo_model(r@) == spec_atmo_entries(es@),
{
    let n = es.len();
    let mut out: Vec<(String, u64)> = Vec::new();
    proof {
        assert(es@.skip(0) =~= es@);
        assert(atmo_model(out@) =~= Seq::<(Seq<char>, u64)>::empty());
    }
    let mut i: usize = 0;
    while i < n
        invariant
            i <= n,
            n == es@.len(),
            atmo_model(out@) + spec_atmo_entries(es@.skip(i as int)) == spec_atmo_entries(es@),
        decreases n - i,
    {
        proof {
            assert(es@.skip(i as int)[0] == es@[i as int]);
            assert(es@.skip(i as int).drop_first() =~= es@.skip(i + 1));
        }
        let ghost prev = out@;
        match &es[i].0 {
            YamlNode::Str(k) => {
                match node_num(&es[i].1) {
                    Option::Some(d) => {
                        let v = scaled(&d, 15, u64::MAX as u128) as u64;
                        out.push((k.clone(), v));
                        proof {
                            assert(atmo_model(out@) =~= atmo_model(prev).push((k@, v)));
                            assert(atmo_model(prev).push((k@, v)) =~= atmo_model(prev) + seq![
                                (k@, v),
                            ]);
                            assert(atmo_model(prev) + (seq![(k@, v)] + spec_atmo_entries(
                                es@.skip(i + 1),
                            )) =~= (atmo_model(prev) + seq![(k@, v)]) + spec_atmo_entries(
                                es@.skip(i + 1),
                            ));
                        }
                    },
                    Option::None => {},
                }
            },
            _ => {},
        }
        i = i + 1;
    }
    proof {
        assert(spec_atmo_entries(es@.skip(n as int)) =~= Seq::<(Seq<char>, u64)>::empty());
        assert(atmo_model(out@) =~= atmo_model(out@) + Seq::<(Seq<char>, u64)>::empty());
    }
    out
}

fn atmo_of(node: &YamlNode) -> (r: Vec<(String, u64)>)
    ensures
        atmo_model(r@) == spec_atmo_of(*node),
{
    match node.get("atmosphere") {
        Option::Some(v) => match v {
            YamlNode::Mapping(es) => atmo_entries(es),
            _ => {
                proof {
                    assert(atmo_model(Seq::<(String, u64)>::empty()) =~= Seq::<
                        (Seq<char>, u64),
                    >::empty());
                }
                Vec::new()
            },
        },
        Option::None => {
            proof {
                assert(atmo_model(Seq::<(String, u64)>::empty()) =~= Seq::<
                    (Seq<char>, u64),
                >::empty());
            }
            Vec::new()
        },
    }
}

/// The parse of one `parentTo` entry: it must be a mapping with at least
/// one entry, the first entry's key must be a string, and the definition
/// under it must itself parse; anything else yields nothing.
pub open spec fn spec_child_of(elem: YamlNode, depth: nat) -> Option<ObjModel>
    decreases depth, 0int, 0int,
{
    if depth == 0 {
        None
    } else {
        match elem {
            YamlNode::Mapping(es) => if es@.len() > 0 && es@[0].0 is Str {
                match spec_parse_object(es@[0].0->Str_0@, es@[0].1, (depth - 1) as nat) {
                    Result::Ok(m) => Some(m),
                    Result::Err(_) => None,
                }
            } else {
                None
            },
            _ => None,
        }
    }
}

/// The children parsed from a `parentTo` sequence, in order; entries that
/// fail to parse are dropped.
pub open spec fn spec_children(elems: Seq<YamlNode>, depth: nat) -> Seq<ObjModel>
    decreases depth, 1int, elems.len(),
{
    if elems.len() == 0 {
        Seq::empty()
    } else {
        match spec_child_of(elems[0], depth) {
            Option::Some(m) => seq![m] + spec_children(elems.drop_first(), depth),
            Option::None => spec_children(elems.drop_first(), depth),
        }
    }
}

/// The children of an object definition; an absent or non-sequence
/// `parentTo` means none.
pub open spec fn spec_children_of(node: YamlNode, depth: nat) -> Seq<ObjModel>
    decreases depth, 2int, 0int,
{
    match spec_node_get(node, "parentTo"@) {
        Option::Some(YamlNode::Sequence(v)) => spec_children(v@, depth),
        _ => Seq::empty(),
    }
}

/// The parse of one object definition.  In order: the `type` field must be
/// present as a string, `mass` and `radius` must be present and numeric,
/// and the kind token must be one of the four known tags; then the object
/// is built with its optional orbital group, atmosphere and children.
pub open spec fn spec_parse_object(name: Seq<char>, node: YamlNode, depth: nat) -> Result<
    ObjModel,
    ErrModel,
>
    decreases depth, 3int, 0int,
{
    if depth == 0 {
        Err(ErrModel::MalformedInput("object nesting too deep"@))
    } else if !(spec_node_get(node, "type"@) matches Some(t) && t is Str) {
        Err(ErrModel::MissingField { object: name, field: "type"@ })
    } else if spec_field_scaled(node, "mass"@, 0, u128::MAX) is None {
        Err(ErrModel::MissingField { object: name, field: "mass"@ })
    } else if spec_field_scaled(node, "radius"@, 6, u64::MAX as u128) is None {
        Err(ErrModel::MissingField { object: name, field: "radius"@ })
    } else if spec_kind(spec_node_get(node, "type"@)->0->Str_0@) is None {
        Err(ErrModel::InvalidObjectType { object: name })
    } else {
        Ok(
            ObjModel {
                name,
                object_type: spec_kind(spec_node_get(node, "type"@)->0->Str_0@)->0,
                mass: spec_field_scaled(node, "mass"@, 0, u128::MAX)->0,
                radius: spec_field_scaled(node, "radius"@, 6, u64::MAX as u128)->0 as u64,
                orbital_params: spec_orbit_of(node),
                atmosphere: spec_atmo_of(node),
                children: spec_children_of(node, depth),
            },
        )
    }
}

fn child_of(elem: &YamlNode, depth: u32) -> (r: Option<Object>)
    requires
        depth >= 1,
    ensures
        match r {
            Option::Some(o) => spec_child_of(*elem, depth as nat) == Some(o@),
            Option::None => spec_child_of(*elem, depth as nat) is None,
        },
    decreases depth, 0int, 0int,
{
    match elem {
        YamlNode::Mapping(es) => {
            if es.len() > 0 {
                match &es[0].0 {
                    YamlNode::Str(k) => {
                        match parse_object(k.clone(), &es[0].1, depth - 1) {
                            Result::Ok(o) => Some(o),
                            Result::Err(_) => None,
                        }
                    },
                    _ => None,
                }
            } else {
                None
            }
        },
        _ => None,
    }
}

fn children_list(elems: &Vec<YamlNode>, depth: u32) -> (r: Vec<Object>)
    requires
        depth >= 1,
    ensures
        models_of(r@) == spec_children(elems@, depth as nat),
    decreases depth, 1int, 0int,
{
    let n = elems.len();
    let mut out: Vec<Object> = Vec::new();
    proof {
        assert(elems@.skip(0) =~= elems@);
        assert(models_of(out@) =~= Seq::<ObjModel>::empty());
    }
    let mut i: usize = 0;
    while i < n
        invariant
            i <= n,
            n == elems@.len(),
            depth >= 1,
            models_of(out@) + spec_children(elems@.skip(i as int), depth as nat) == spec_children(
                elems@,
                depth as nat,
            ),
        decreases n - i,
    {
        proof {
            assert(elems@.skip(i as int)[0] == elems@[i as int]);
            assert(elems@.skip(i as int).drop_first() =~= elems@.skip(i + 1));
        }
        let ghost prev = out@;
        match child_of(&elems[i], depth) {
            Option::Some(o) => {
                proof {
                    assert(spec_children(elems@.skip(i as int), depth as nat) == seq![o@]
                        + spec_children(elems@.skip(i + 1), depth as nat));
                }
                out.push(o);
                proof {
                    assert(out@.drop_last() =~= prev);
                    assert(models_of(out@) =~= models_of(prev).push(model_of(out@.last())));
                    assert(models_of(prev).push(model_of(out@.last())) =~= models_of(prev)
                        + seq![model_of(out@.last())]);
                    assert(models_of(prev) + (seq![model_of(out@.last())] + spec_children(
                        elems@.skip(i + 1),
                        depth as nat,
                    )) =~= (models_of(prev) + seq![model_of(out@.last())]) + spec_children(
                        elems@.skip(i + 1),
                        depth as nat,
                    ));
                }
            },
            Option::None => {
                proof {
                    assert(spec_children(elems@.skip(i as int), depth as nat) == spec_children(
                        elems@.skip(i + 1),
                        depth as nat,
                    ));
                }
            },
        }
        i = i + 1;
    }
    proof {
        assert(spec_children(elems@.skip(n as int), depth as nat) =~= Seq::<ObjModel>::empty());
        assert(models_of(out@) =~= models_of(out@) + Seq::<ObjModel>::empty());
    }
    out
}

fn children_of(node: &YamlNode, depth: u32) -> (r: Vec<Object>)
    requires
        depth >= 1,
    ensures
        models_of(r@) == spec_children_of(*node, depth as nat),
    decreases depth, 2int, 0int,
{
    match node.get("parentTo") {
        Option::Some(v) => match v {
            YamlNode::Sequence(elems) => children_list(elems, depth),
            _ => {
                proof {
                    assert(models_of(Seq::<Object>::empty()) =~= Seq::<ObjModel>::empty());
                }
                Vec::new()
            },
        },
        Option::None => {
            proof {
                assert(models_of(Seq::<Object>::empty()) =~= Seq::<ObjModel>::empty());
            }
            Vec::new()
        },
    }
}

/// Parse one object definition under its name.
pub fn parse_object(name: String, node: &YamlNode, depth: u32) -> (r: Result<Object, LoadError>)
    ensures
        res_model(r) == spec_parse_object(name@, *node, depth as nat),
    decreases depth, 3int, 0int,
{
    if depth == 0 {
        return Err(LoadError::MalformedInput("object nesting too deep".to_owned()));
    }
    let tok: String = match node.get("type") {
        Option::Some(v) => match v {
            YamlNode::Str(t) => t.clone(),
            _ => {
                return Err(
                    LoadError::MissingField { object: name, field: "type".to_owned() },
                );
            },
        },
        Option::None => {
            return Err(LoadError::MissingField { object: name, field: "type".to_owned() });
        },
    };
    let mass: u128 = match field_scaled(node, "mass", 0, u128::MAX) {
        Option::Some(m) => m,
        Option::None => {
            return Err(LoadError::MissingField { object: name, field: "mass".to_owned() });
        },
    };
    let radius: u64 = match field_scaled(node, "radius", 6, u64::MAX as u128) {
        Option::Some(x) => x as u64,
        Option::None => {
            return Err(LoadError::MissingField { object: name, field: "radius".to_owned() });
        },
    };
    let kind: ObjectType = match parse_kind(tok.as_str()) {
        Option::Some(k) => k,
        Option::None => {
            return Err(LoadError::InvalidObjectType { object: name });
        },
    };
    let orbital_params = orbit_of(node);
    let atmosphere = atmo_of(node);
    let children = children_of(node, depth);
    let obj = Object { name, object_type: kind, mass, radius, orbital_params, atmosphere, children };
    proof {
        assert(model_of(obj) =~= spec_parse_object(obj.name@, *node, depth as nat)->Ok_0);
    }
    Ok(obj)
}

/// The whole load, from a parsed document.  A `StarSystem` wrapper is
/// unwrapped to its first entry; otherwise the first top-level entry is
/// the root object.
pub open spec fn spec_load(doc: YamlNode) -> Result<ObjModel, ErrModel> {
    match doc {
        YamlNode::Mapping(es) => if es@.len() == 0 {
            Err(ErrModel::MalformedInput("No valid object found in YAML"@))
        } else {
            match spec_get(es@, "StarSystem"@) {
                Option::Some(ss) => match ss {
                    YamlNode::Mapping(inner) => if inner@.len() > 0 {
                        if inner@[0].0 is Str {
                            spec_parse_object(
                                inner@[0].0->Str_0@,
                                inner@[0].1,
                                MAX_DEPTH as nat,
                            )
                        } else {
                            spec_parse_object("Unnamed"@, inner@[0].1, MAX_DEPTH as nat)
                        }
                    } else {
                        Err(ErrModel::MalformedInput("Malformed StarSystem definition"@))
                    },
                    _ => Err(ErrModel::MalformedInput("Malformed StarSystem definition"@)),
                },
                Option::None => {
                    if es@[0].0 is Str {
                        spec_parse_object(es@[0].0->Str_0@, es@[0].1, MAX_DEPTH as nat)
                    } else {
                        Err(ErrModel::MalformedInput("No valid object found in YAML"@))
                    }
                },
            }
        },
        _ => Err(ErrModel::MalformedInput("No valid object found in YAML"@)),
    }
}

/// Build the celestial tree described by a parsed document.
pub fn load_doc(doc: &YamlNode) -> (r: Result<Object, LoadError>)
    ensures
        res_model(r) == spec_load(*doc),
{
    match doc {
        YamlNode::Mapping(es) => {
            if es.len() == 0 {
                return Err(
                    LoadError::MalformedInput("No valid object found in YAML".to_owned()),
                );
            }
            match doc.get("StarSystem") {
                Option::Some(ss) => match ss {
                    YamlNode::Mapping(inner) => {
                        if inner.len() > 0 {
                            let name: String = match &inner[0].0 {
                                YamlNode::Str(k) => k.clone(),
                                _ => "Unnamed".to_owned(),
                            };
                            parse_object(name, &inner[0].1, MAX_DEPTH)
                        } else {
                            Err(
                                LoadError::MalformedInput(
                                    "Malformed StarSystem definition".to_owned(),
                                ),
                            )
                        }
                    },
                    _ => Err(
                        LoadError::MalformedInput("Malformed StarSystem definition".to_owned()),
                    ),
                },
                Option::None => {
                    match &es[0].0 {
                        YamlNode::Str(k) => parse_object(k.clone(), &es[0].1, MAX_DEPTH),
                        _ => Err(
                            LoadError::MalformedInput("No valid object found in YAML".to_owned()),
                        ),
                    }
                },
            }
        },
        _ => Err(LoadError::MalformedInput("No valid object found in YAML".to_owned())),
    }
}

/// A parsed mean anomaly always lands in its canonical range.
proof fn lemma_anomaly_wf(d: Decimal)
    ensures
        spec_anomaly_femto(d) < TURN_FEMTO,
{
    let mag = spec_scaled(
        Decimal { neg: false, mantissa: d.mantissa, exponent: d.exponent },
        15,
        u128::MAX,
    ) as int;
    vstd::arithmetic::div_mod::lemma_mod_division_less_than_divisor(mag, TURN_FEMTO as int);
    vstd::arithmetic::div_mod::lemma_mod_bound(mag, TURN_FEMTO as int);
}

/// The orbital elements built by the loader are well-formed.
pub proof fn lemma_orbit_wf(node: YamlNode)
    ensures
        spec_orbit_of(node).well_formed(),
{
    let ma = spec_field_dec(node, "mean-anomaly"@);
    if ma is Some {
        lemma_anomaly_wf(ma->0);
    }
}

proof fn lemma_child_wf(elem: YamlNode, depth: nat)
    ensures
        spec_child_of(elem, depth) matches Some(m) ==> model_wf(m),
    decreases depth, 0int, 0int,
{
    if depth > 0 {
        match elem {
            YamlNode::Mapping(es) => {
                if es@.len() > 0 && es@[0].0 is Str {
                    lemma_parse_object_wf(es@[0].0->Str_0@, es@[0].1, (depth - 1) as nat);
                }
            },
            _ => {},
        }
    }
}

proof fn lemma_children_wf(elems: Seq<YamlNode>, depth: nat)
    ensures
        forall|i: int| 0 <= i < spec_children(elems, depth).len() ==> model_wf(
            #[trigger] spec_children(elems, depth)[i],
        ),
    decreases depth, 1int, elems.len(),
{
    if elems.len() > 0 {
        lemma_child_wf(elems[0], depth);
        lemma_children_wf(elems.drop_first(), depth);
        let c = spec_children(elems, depth);
        let rest = spec_children(elems.drop_first(), depth);
        assert forall|i: int| 0 <= i < c.len() implies model_wf(#[trigger] c[i]) by {
            match spec_child_of(elems[0], depth) {
                Option::Some(m) => {
                    if i == 0 {
                        assert(c[i] == m);
                    } else {
                        assert(c[i] == rest[i - 1]);
                    }
                },
                Option::None => {
                    assert(c[i] == rest[i]);
                },
            }
        }
    }
}

/// Every object the loader accepts is well-formed throughout its tree.
pub proof fn lemma_parse_object_wf(name: Seq<char>, node: YamlNode, depth: nat)
    ensures
        spec_parse_object(name, node, depth) matches Ok(m) ==> model_wf(m),
    decreases depth, 3int, 0int,
{
    if depth > 0 {
        lemma_orbit_wf(node);
        let r = spec_parse_object(name, node, depth);
        if r is Ok {
            let m = r->Ok_0;
            assert(m.orbital_params == spec_orbit_of(node));
            assert(m.children == spec_children_of(node, depth));
            match spec_node_get(node, "parentTo"@) {
                Option::Some(v) => {
                    match v {
                        YamlNode::Sequence(xs) => {
                            lemma_children_wf(xs@, depth);
                            assert forall|i: int| 0 <= i < m.children.len() implies model_wf(
                                #[trigger] m.children[i],
                            ) by {
                                assert(m.children[i] == spec_children(xs@, depth)[i]);
                            }
                        },
                        _ => {
                            assert(m.children.len() == 0);
                        },
                    }
                },
                Option::None => {
                    assert(m.children.len() == 0);
                },
            }
        }
    }
}

/// Every tree that a load produces is well-formed: each body's mean
/// anomaly already lies in its canonical range.
pub proof fn lemma_load_wf(doc: YamlNode)
    ensures
        spec_load(doc) matches Ok(m) ==> model_wf(m),
{
    match doc {
        YamlNode::Mapping(es) => {
            if es@.len() > 0 {
                match spec_get(es@, "StarSystem"@) {
                    Option::Some(ss) => {
                        match ss {
                            YamlNode::Mapping(inner) => {
                                if inner@.len() > 0 {
                                    if inner@[0].0 is Str {
                                        lemma_parse_object_wf(
                                            inner@[0].0->Str_0@,
                                            inner@[0].1,
                                            MAX_DEPTH as nat,
                                        );
                                    } else {
                                        lemma_parse_object_wf(
                                            "Unnamed"@,
                                            inner@[0].1,
                                            MAX_DEPTH as nat,
                                        );
                                    }
                                }
                            },
                            _ => {},
                        }
                    },
                    Option::None => {
                        if es@[0].0 is Str {
                            lemma_parse_object_wf(es@[0].0->Str_0@, es@[0].1, MAX_DEPTH as nat);
                        }
                    },
                }
            }
        },
        _ => {},
    }
}

/// Child leniency: an entry of `parentTo` that does not parse is dropped
/// from the children without disturbing the parse of its siblings.
pub proof fn lemma_child_leniency(elems: Seq<YamlNode>, i: int, depth: nat)
    requires
        0 <= i < elems.len(),
        spec_child_of(elems[i], depth) is None,
    ensures
        spec_children(elems, depth) == spec_children(elems.remove(i), depth),
    decreases elems.len(),
{
    if i == 0 {
        assert(elems.remove(0) =~= elems.drop_first());
    } else {
        assert(elems.drop_first()[i - 1] == elems[i]);
        lemma_child_leniency(elems.drop_first(), i - 1, depth);
        assert(elems.remove(i).drop_first() =~= elems.drop_first().remove(i - 1));
        assert(elems.remove(i)[0] == elems[0]);
    }
}

/// Strict required fields: when the root object's definition has its
/// `type` present but no numeric `mass`, the whole load fails with
/// `MissingField` for `mass`, and no tree at all is produced.
pub proof fn lemma_missing_mass_fails(doc: YamlNode, name: Seq<char>, root: YamlNode)
    requires
        doc is Mapping,
        doc->Mapping_0@.len() > 0,
        spec_get(doc->Mapping_0@, "StarSystem"@) is None,
        doc->Mapping_0@[0].0 is Str,
        doc->Mapping_0@[0].0->Str_0@ == name,
        doc->Mapping_0@[0].1 == root,
        spec_node_get(root, "type"@) matches Some(t) && t is Str,
        spec_field_scaled(root, "mass"@, 0, u128::MAX) is None,
    ensures
        spec_load(doc) == Err::<ObjModel, ErrModel>(ErrModel::MissingField { object: name, field: "mass"@ }),
{
}

} // verus!
