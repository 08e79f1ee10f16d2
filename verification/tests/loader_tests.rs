use magnetar_data::celestial::{Object, ObjectType};
use magnetar_data::doc::YamlNode;
use magnetar_data::loader::{load_doc, LoadError};
use magnetar_data::yaml::load_str;

fn node_str(s: &str) -> YamlNode {
    YamlNode::Str(s.to_owned())
}

fn node_num(s: &str) -> YamlNode {
    YamlNode::Num(s.to_owned())
}

#[test]
fn round_trip_root_with_two_children() {
    let text = "Sol:\n  type: STAR\n  mass: 1.989e30\n  radius: 696000\n  parentTo:\n    - Mercury:\n        type: ROCKY\n        mass: 3.3e23\n        radius: 2439.7\n        semi-major-axis: 57909050\n        eccentricity: 0.2056\n        longitude-of-periapsis: 77\n        mean-anomaly: 174.8\n    - Venus:\n        type: ROCKY\n        mass: 4.867e24\n        radius: 6051.8\n        semi-major-axis: 108208000\n        eccentricity: 0.0068\n        longitude-of-periapsis: 131\n        mean-anomaly: 50.1\n";
    let sol = load_str(text).expect("load should succeed");
    assert_eq!(sol.name, "Sol");
    assert!(matches!(sol.object_type, ObjectType::Star));
    assert_eq!(sol.mass, 1_989_000_000_000_000_000_000_000_000_000u128);
    assert_eq!(sol.radius, 696_000_000_000);
    assert_eq!(sol.orbital_params.semi_major_axis, 0);
    assert_eq!(sol.children.len(), 2);

    let mercury = &sol.children[0];
    assert_eq!(mercury.name, "Mercury");
    assert!(matches!(mercury.object_type, ObjectType::Rocky));
    assert_eq!(mercury.mass, 330_000_000_000_000_000_000_000u128);
    assert_eq!(mercury.radius, 2_439_700_000);
    assert_eq!(mercury.orbital_params.semi_major_axis, 57_909_050);
    assert_eq!(mercury.orbital_params.eccentricity, 205_600_000_000_000);
    assert_eq!(mercury.orbital_params.longitude_of_periapsis, 77);
    assert_eq!(mercury.orbital_params.mean_anomaly, 174_800_000_000_000_000);
    assert!(mercury.children.is_empty());

    let venus = &sol.children[1];
    assert_eq!(venus.name, "Venus");
    assert_eq!(venus.orbital_params.semi_major_axis, 108_208_000);
    assert_eq!(venus.orbital_params.mean_anomaly, 50_100_000_000_000_000);
}

#[test]
fn child_missing_type_is_dropped_without_aborting() {
    let text = "Sol:\n  type: STAR\n  mass: 1000\n  radius: 5\n  parentTo:\n    - Broken:\n        mass: 1\n        radius: 1\n    - Fine:\n        type: ROCKY\n        mass: 2\n        radius: 2\n";
    let sol = load_str(text).expect("siblings must survive a broken child");
    assert_eq!(sol.children.len(), 1);
    assert_eq!(sol.children[0].name, "Fine");
}

#[test]
fn root_missing_mass_fails_with_missing_field() {
    let text = "Sol:\n  type: STAR\n  radius: 696000\n";
    match load_str(text) {
        Err(LoadError::MissingField { object, field }) => {
            assert_eq!(object, "Sol");
            assert_eq!(field, "mass");
        },
        other => panic!("expected a missing mass, got {:?}", other.is_ok()),
    }
}

#[test]
fn unknown_kind_token_fails_with_invalid_object_type() {
    let text = "Pluto:\n  type: DWARF\n  mass: 1\n  radius: 1\n";
    match load_str(text) {
        Err(LoadError::InvalidObjectType { object }) => assert_eq!(object, "Pluto"),
        other => panic!("expected an invalid kind, got {:?}", other.is_ok()),
    }
}

#[test]
fn star_system_wrapper_is_unwrapped() {
    let text = "StarSystem:\n  Sol:\n    type: STAR\n    mass: 10\n    radius: 20\n";
    let sol = load_str(text).expect("wrapped system should load");
    assert_eq!(sol.name, "Sol");
    assert_eq!(sol.mass, 10);
}

#[test]
fn malformed_star_system_wrapper_fails() {
    let text = "StarSystem: 42\n";
    match load_str(text) {
        Err(LoadError::MalformedInput(msg)) => {
            assert_eq!(msg, "Malformed StarSystem definition");
        },
        other => panic!("expected malformed input, got {:?}", other.is_ok()),
    }
}

#[test]
fn empty_document_fails() {
    match load_str("{}") {
        Err(LoadError::MalformedInput(msg)) => {
            assert_eq!(msg, "No valid object found in YAML");
        },
        other => panic!("expected malformed input, got {:?}", other.is_ok()),
    }
}

#[test]
fn unparseable_text_fails() {
    match load_str(": : :") {
        Err(LoadError::MalformedInput(msg)) => assert_eq!(msg, "Failed to parse YAML"),
        other => panic!("expected a parse failure, got {:?}", other.is_ok()),
    }
}

#[test]
fn partial_orbital_group_falls_back_to_stationary() {
    let text = "Mars:\n  type: ROCKY\n  mass: 1\n  radius: 1\n  semi-major-axis: 227939200\n  eccentricity: 0.0934\n";
    let mars = load_str(text).expect("load should succeed");
    assert_eq!(mars.orbital_params.semi_major_axis, 0);
    assert_eq!(mars.orbital_params.eccentricity, 0);
    assert_eq!(mars.orbital_params.longitude_of_periapsis, 0);
    assert_eq!(mars.orbital_params.mean_anomaly, 0);
}

#[test]
fn atmosphere_entries_are_scaled_and_bad_ones_dropped() {
    let text = "Venus:\n  type: ROCKY\n  mass: 1\n  radius: 1\n  atmosphere:\n    CO2: 0.965\n    N2: 0.035\n    junk: not-a-number\n";
    let venus = load_str(text).expect("load should succeed");
    assert_eq!(venus.atmosphere.len(), 2);
    assert_eq!(venus.atmosphere[0].0, "CO2");
    assert_eq!(venus.atmosphere[0].1, 965_000_000_000_000);
    assert_eq!(venus.atmosphere[1].0, "N2");
    assert_eq!(venus.atmosphere[1].1, 35_000_000_000_000);
}

#[test]
fn negative_longitude_clamps_to_zero() {
    let text = "X:\n  type: ROCKY\n  mass: 1\n  radius: 1\n  semi-major-axis: 5\n  eccentricity: 0\n  longitude-of-periapsis: -10\n  mean-anomaly: -90\n";
    let x = load_str(text).expect("load should succeed");
    assert_eq!(x.orbital_params.longitude_of_periapsis, 0);
    // A negative mean anomaly wraps around the turn: -90 deg is 270 deg.
    assert_eq!(x.orbital_params.mean_anomaly, 270_000_000_000_000_000);
}

#[test]
fn load_doc_parses_a_hand_built_tree() {
    let root_def = YamlNode::Mapping(vec![
        (node_str("type"), node_str("JOVIAN")),
        (node_str("mass"), node_num("1898")),
        (node_str("radius"), node_num("69911")),
    ]);
    let doc = YamlNode::Mapping(vec![(node_str("Jupiter"), root_def)]);
    let jupiter = load_doc(&doc).expect("hand-built document should load");
    assert_eq!(jupiter.name, "Jupiter");
    assert!(matches!(jupiter.object_type, ObjectType::Jovian));
    assert_eq!(jupiter.mass, 1898);
    assert_eq!(jupiter.radius, 69_911_000_000);
}

#[test]
fn stepping_a_loaded_tree_moves_children_in_lockstep() {
    let text = "Sol:\n  type: STAR\n  mass: 10\n  radius: 20\n  parentTo:\n    - A:\n        type: ROCKY\n        mass: 1\n        radius: 1\n        semi-major-axis: 1\n        eccentricity: 0\n        longitude-of-periapsis: 0\n        mean-anomaly: 0\n    - B:\n        type: ICE_GIANT\n        mass: 1\n        radius: 1\n        semi-major-axis: 1\n        eccentricity: 0\n        longitude-of-periapsis: 0\n        mean-anomaly: 0\n";
    let mut sol: Object = load_str(text).expect("load should succeed");
    sol.step_forward(1);
    // a = 1 km means one full turn per second: both children return to 0.
    assert_eq!(sol.orbital_params.mean_anomaly, 0);
    assert_eq!(sol.children[0].orbital_params.mean_anomaly, 0);
    assert_eq!(sol.children[1].orbital_params.mean_anomaly, 0);
    sol.children[1].orbital_params.semi_major_axis = 4;
    sol.step_forward(1);
    // a = 4 km: a^1.5 = 8, so one second is an eighth of a turn.
    assert_eq!(sol.children[1].orbital_params.mean_anomaly, 45_000_000_000_000_000);
    assert_eq!(sol.children[0].orbital_params.mean_anomaly, 0);
}

#[test]
fn star_system_with_non_string_inner_key_is_unnamed() {
    let text = "StarSystem:\n  3:\n    type: STAR\n    mass: 1\n    radius: 1\n";
    let root = load_str(text).expect("load should succeed");
    assert_eq!(root.name, "Unnamed");
}

#[test]
fn multi_key_child_entry_takes_its_first_key() {
    let text = "Sol:\n  type: STAR\n  mass: 1\n  radius: 1\n  parentTo:\n    - First:\n        type: ROCKY\n        mass: 1\n        radius: 1\n      Second:\n        type: ROCKY\n        mass: 2\n        radius: 2\n";
    let sol = load_str(text).expect("load should succeed");
    assert_eq!(sol.children.len(), 1);
    assert_eq!(sol.children[0].name, "First");
}
