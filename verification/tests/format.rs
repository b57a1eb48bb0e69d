//! Format detection and the handler registry.

use articara::format::{
    FormatCapabilities, FormatHandler, FormatRegistry, HandlerInfo, MjcfHandler, RobotFormat,
    SdfHandler, UrdfHandler, UsdHandler,
};

#[test]
fn extension_is_lowered_before_it_is_looked_up() {
    assert_eq!(RobotFormat::detect_from_extension("a/B.URDF"), Some(RobotFormat::Urdf));
    assert_eq!(RobotFormat::detect_from_extension("arm.XaCrO"), Some(RobotFormat::Urdf));
    assert_eq!(RobotFormat::for_extension("URDF"), None);
}

#[test]
fn every_known_extension_is_detected() {
    let cases = [
        ("r.urdf", RobotFormat::Urdf),
        ("r.xacro", RobotFormat::Urdf),
        ("r.sdf", RobotFormat::Sdf),
        ("r.world", RobotFormat::Sdf),
        ("r.xml", RobotFormat::Mjcf),
        ("r.mjcf", RobotFormat::Mjcf),
        ("r.usda", RobotFormat::IsaacUsd),
        ("r.usd", RobotFormat::IsaacUsd),
        ("r.misa", RobotFormat::Misa),
    ];
    for (path, format) in cases {
        assert_eq!(RobotFormat::detect_from_extension(path), Some(format), "{path}");
        assert_eq!(RobotFormat::detect(path, None), Some(format), "{path}");
    }
}

#[test]
fn paths_without_a_known_extension_are_unknown() {
    for path in ["robot", "dir.d/robot", "robot.txt", ".urdf", "", "robot."] {
        assert_eq!(RobotFormat::detect_from_extension(path), None, "{path}");
        assert_eq!(RobotFormat::detect(path, Some("<robot>")), None, "{path}");
    }
}

#[test]
fn only_the_last_component_has_an_extension() {
    // A separator at the end does not count, nor does a dot as a component.
    assert_eq!(RobotFormat::detect_from_extension("a.urdf/"), Some(RobotFormat::Urdf));
    assert_eq!(RobotFormat::detect_from_extension("dir/a.sdf//"), Some(RobotFormat::Sdf));
    assert_eq!(RobotFormat::detect_from_extension("a.urdf/."), Some(RobotFormat::Urdf));
    assert_eq!(RobotFormat::detect_from_extension("a.urdf/.."), None);
    assert_eq!(RobotFormat::detect_from_extension("a.urdf/b"), None);
    assert_eq!(RobotFormat::detect_from_extension("a.sdf.urdf"), Some(RobotFormat::Urdf));
    assert_eq!(RobotFormat::detect_from_extension("a.urdf."), None);
    assert_eq!(RobotFormat::detect_from_extension("/"), None);
    assert_eq!(RobotFormat::detect_from_extension("..urdf"), Some(RobotFormat::Urdf));
}

#[test]
fn xml_is_told_apart_by_contents() {
    let d = |c| RobotFormat::detect("m.xml", c);
    assert_eq!(d(Some("<mujoco model=\"a\">")), Some(RobotFormat::Mjcf));
    assert_eq!(d(Some("<?xml?><sdf version=\"1\">")), Some(RobotFormat::Sdf));
    assert_eq!(d(Some("<robot name=\"x\">")), Some(RobotFormat::Urdf));
    assert_eq!(d(Some("nothing to see")), Some(RobotFormat::Mjcf));
    assert_eq!(d(None), Some(RobotFormat::Mjcf));
    // The order of the markers decides, not their place in the file.
    assert_eq!(d(Some("<robot><sdf>")), Some(RobotFormat::Sdf));
    assert_eq!(d(Some("<sdf><mujoco>")), Some(RobotFormat::Mjcf));
    // Only shared extensions are looked into.
    assert_eq!(RobotFormat::detect("m.urdf", Some("<mujoco>")), Some(RobotFormat::Urdf));
    assert_eq!(RobotFormat::for_file("mjcf", Some("<robot")), Some(RobotFormat::Urdf));
}

#[test]
fn extension_of_a_format_leads_back_to_it() {
    for format in RobotFormat::ALL {
        assert_eq!(RobotFormat::for_extension(format.extension()), Some(format));
        assert!(format.supports_import());
        assert!(format.supports_export());
    }
    assert_eq!(RobotFormat::Mjcf.extension(), "xml");
    assert_eq!(RobotFormat::IsaacUsd.extension(), "usda");
}

#[test]
fn labels_are_those_of_the_menu() {
    let labels: Vec<&str> = RobotFormat::ALL.iter().map(|f| f.label()).collect();
    assert_eq!(labels, vec!["Misa", "URDF", "SDF", "MJCF", "Isaac (USD ASCII)"]);
}

#[test]
fn builtin_handlers_in_order() {
    let registry = FormatRegistry::default_registry();
    let names: Vec<&str> = registry.handlers().iter().map(|h| h.name.as_str()).collect();
    assert_eq!(names, vec!["MJCF", "SDF", "URDF", "Isaac USD"]);
    assert_eq!(FormatRegistry::default().handlers().len(), 4);
    assert_eq!(FormatRegistry::new().handlers().len(), 0);
}

#[test]
fn each_format_goes_to_its_handler() {
    let registry = FormatRegistry::default_registry();
    let at = |p| registry.handler_for(p, None);
    assert_eq!(at("a.urdf"), Some(2));
    assert_eq!(at("a.XACRO"), Some(2));
    assert_eq!(at("a.sdf"), Some(1));
    assert_eq!(at("a.world"), Some(1));
    assert_eq!(at("a.xml"), Some(0));
    assert_eq!(at("a.mjcf"), Some(0));
    assert_eq!(at("a.usda"), Some(3));
    assert_eq!(at("a.usd"), Some(3));
    assert_eq!(at("a.misa"), None);
    assert_eq!(at("a"), None);
    assert_eq!(at("a.urdf/"), Some(2));
}

#[test]
fn three_handlers_share_xml_and_the_contents_settle_it() {
    let registry = FormatRegistry::default_registry();
    let at = |c| registry.handler_for("a.xml", Some(c));
    assert_eq!(at("<robot name=\"x\">"), Some(2));
    assert_eq!(at("<sdf version=\"1\">"), Some(1));
    assert_eq!(at("<mujoco>"), Some(0));
    assert_eq!(at("anything else"), Some(0));
    assert_eq!(at("<robot><sdf>"), Some(1));
    // One claimant only, so the contents are not asked.
    assert_eq!(registry.handler_for("a.mjcf", Some("<robot")), Some(0));
    assert_eq!(registry.handler_for("a.urdf", Some("<sdf")), Some(2));
}

#[test]
fn import_and_export_hand_the_call_to_one_handler() {
    let registry = FormatRegistry::default_registry();
    let name = |i: usize| registry.handlers()[i].name.clone();
    let read = |i: usize| Ok(name(i));
    let got = registry.import("x.xml", Some("<sdf>"), "\"x.xml\"", read);
    assert_eq!(got, Ok("SDF".to_string()));
    let got = registry.import("x.xml", Some("<sdf>"), "\"x.xml\"", |i| {
        Err::<(), String>(format!("{} gave up", name(i)))
    });
    assert_eq!(got, Err("SDF gave up".to_string()));
    let mut asked = Vec::new();
    let done = registry.export("x.usda", None, "\"x.usda\"", |i| {
        asked.push(i);
        Ok(())
    });
    assert_eq!(done, Ok(()));
    assert_eq!(asked, vec![3]);
}

#[test]
fn without_a_handler_nothing_is_called() {
    let registry = FormatRegistry::default_registry();
    let got = registry.import("x.txt", None, "\"x.txt\"", |_| -> Result<u8, String> {
        panic!("no handler claims the file")
    });
    assert_eq!(got, Err("No handler for \"x.txt\"".to_string()));
    let got = registry.export("x", None, "\"x\"", |_| panic!("no handler claims the file"));
    assert_eq!(got, Err("No handler for \"x\"".to_string()));
}

fn other_xml() -> HandlerInfo {
    HandlerInfo {
        name: "Other".to_string(),
        extensions: vec!["xml".to_string()],
        capabilities: FormatCapabilities::default(),
        content_marker: Some("<other"),
    }
}

#[test]
fn a_shared_extension_is_settled_by_contents_or_order() {
    let mut registry = FormatRegistry::default_registry();
    registry.register_info(other_xml());
    assert_eq!(registry.pick("xml", Some("<other/>")), Some(4));
    assert_eq!(registry.pick("xml", Some("<mujoco/>")), Some(0));
    assert_eq!(registry.pick("xml", Some("<other><mujoco>")), Some(0));
    assert_eq!(registry.pick("xml", Some("<other><robot>")), Some(2));
    assert_eq!(registry.pick("xml", Some("neither")), Some(0));
    assert_eq!(registry.pick("xml", None), Some(0));
    assert_eq!(registry.handlers()[4].name, "Other");
}

#[test]
fn capabilities_of_the_builtin_handlers() {
    let all = FormatCapabilities {
        mimic: true,
        sensors: true,
        collision_pairs: true,
        closed_loops: true,
        actuators: true,
    };
    let none = FormatCapabilities::default();
    assert!(!none.mimic && !none.sensors && !none.actuators);
    assert_eq!(UrdfHandler.capabilities(), FormatCapabilities { mimic: true, ..none });
    assert_eq!(SdfHandler.capabilities(), all);
    assert_eq!(MjcfHandler.capabilities(), all);
    assert_eq!(
        UsdHandler.capabilities(),
        FormatCapabilities { mimic: false, sensors: false, ..all }
    );
}

#[test]
fn handlers_know_their_contents() {
    assert!(UrdfHandler.matches_content("<robot name='a'>"));
    assert!(!UrdfHandler.matches_content("<sdf>"));
    assert!(SdfHandler.matches_content("<sdf>"));
    assert!(MjcfHandler.matches_content("x<mujoco"));
    assert!(!UsdHandler.matches_content("#usda 1.0"));
}
