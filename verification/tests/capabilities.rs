use wield::time::Duration;
use wield::availability::{binary_requirements, is_available, AvailabilityView};
use wield::capabilities::{list_tools, report};
use wield::descriptor::{
    ArgSpec, ArgType, Capability, Category, CommandSpec, Descriptor, OutputDir, OutputSpec,
    ProgressSpec, Requires, SuccessSpec, ToolId, ValueKind,
};
use wield::registry::Registry;

fn availability_with(binaries: &[&str], portals: &[(&str, u32)]) -> AvailabilityView {
    let mut view = AvailabilityView::default();
    for binary in binaries {
        view.binaries.insert((*binary).to_owned());
    }
    for (iface, version) in portals {
        view.portals.insert((*iface).to_owned(), *version);
    }
    view
}

fn screen_ocr_requires() -> Requires {
    Requires::All(vec![
        Requires::Portal {
            iface: "Screenshot".into(),
            min_ver: 2,
        },
        Requires::Binary("tesseract".into()),
    ])
}

#[test]
fn all_reports_the_first_unmet_entry() {
    let (available, reason) = is_available(&availability_with(&[], &[]), &screen_ocr_requires());
    assert!(!available);
    assert_eq!(
        reason.as_deref(),
        Some("the Screenshot desktop portal is not available")
    );
}

#[test]
fn all_is_available_only_when_every_entry_is() {
    let view = availability_with(&["tesseract"], &[("Screenshot", 2)]);
    let (available, reason) = is_available(&view, &screen_ocr_requires());
    assert!(available);
    assert!(reason.is_none());
}

#[test]
fn binary_requirements_collects_nested_entries() {
    let requires = screen_ocr_requires();
    let names: Vec<&str> = binary_requirements(&requires)
        .into_iter()
        .map(String::as_str)
        .collect();
    assert_eq!(names, vec!["tesseract"]);
}

#[test]
fn an_old_portal_is_reported_with_both_versions() {
    let view = availability_with(&["tesseract"], &[("Screenshot", 1)]);
    let (available, reason) = is_available(&view, &screen_ocr_requires());
    assert!(!available);
    assert_eq!(
        reason.as_deref(),
        Some("the Screenshot desktop portal is version 1, but this tool needs version 2")
    );
    let (available, reason) = is_available(
        &availability_with(&[], &[("Screenshot", 2)]),
        &screen_ocr_requires(),
    );
    assert!(!available);
    assert_eq!(reason.as_deref(), Some("tesseract is not installed"));
}

fn tool(id: &str, title: &str, requires: Requires) -> Descriptor {
    Descriptor {
        id: ToolId::parse(id).unwrap(),
        title: title.into(),
        keywords: vec!["k".into()],
        category: Category::Convert,
        args: vec![ArgSpec {
            name: "input".into(),
            label: "in".into(),
            help: None,
            arg_type: ArgType::File {
                filters: vec![],
                multiple: false,
            },
            default: None,
            required: true,
            when: None,
        }],
        requires,
        output: OutputSpec::File {
            name: "{input_stem}.o".into(),
            dir: OutputDir::SameAsInput,
        },
        capability: Capability::Command(CommandSpec {
            binary: "magick".into(),
            args: vec!["{input}".into(), "{output}".into()],
            progress: ProgressSpec::Untracked,
            timeout: Duration::from_secs(5),
            success: SuccessSpec::ExitZero,
            combine_inputs: false,
        }),
    }
}

fn fixture_registry() -> Registry {
    let mut r = Registry::new();
    r.register(tool("image.convert", "Convert image", Requires::Binary("magick".into())))
        .unwrap();
    let mut pick = tool("color.pick", "Pick colour", Requires::Nothing);
    pick.args = vec![];
    pick.output = OutputSpec::Value(ValueKind::Color);
    pick.capability = Capability::Portal {
        adapter: "screenshot.pick_color".into(),
    };
    r.register(pick).unwrap();
    r
}

#[test]
fn list_tools_with_no_query_returns_registration_order() {
    let registry = fixture_registry();
    let view = availability_with(&["magick"], &[]);
    let ids: Vec<String> = list_tools(&registry, &view, None)
        .into_iter()
        .map(|t| t.id)
        .collect();
    assert_eq!(ids, vec!["image.convert".to_string(), "color.pick".to_string()]);
    let blank: Vec<String> = list_tools(&registry, &view, Some("   "))
        .into_iter()
        .map(|t| t.id)
        .collect();
    assert_eq!(blank, ids);
}

#[test]
fn list_tools_with_a_query_ranks_matches() {
    let registry = fixture_registry();
    let view = availability_with(&["magick"], &[]);
    let hits = list_tools(&registry, &view, Some("img conv"));
    assert_eq!(hits.first().unwrap().id, "image.convert");
    assert!(list_tools(&registry, &view, Some("zzz nonsense")).is_empty());
    let colour = list_tools(&registry, &view, Some("colour"));
    assert_eq!(colour.first().unwrap().id, "color.pick");
    assert_eq!(colour.first().unwrap().category, "Convert");
}

#[test]
fn unavailable_tool_carries_a_reason() {
    let registry = fixture_registry();
    let view = availability_with(&[], &[]);
    let tools = list_tools(&registry, &view, None);
    let convert = tools.iter().find(|t| t.id == "image.convert").unwrap();
    assert!(!convert.available);
    assert_eq!(convert.reason.as_deref(), Some("magick is not installed"));
    let pick = tools.iter().find(|t| t.id == "color.pick").unwrap();
    assert!(pick.available);
    assert!(pick.reason.is_none());
}

#[test]
fn report_lists_needed_binaries_and_tool_availability() {
    let registry = fixture_registry();
    let view = availability_with(&["magick"], &[("Screenshot", 2)]);
    let rep = report(&registry, &view);
    assert_eq!(rep.binaries, vec![("magick".to_string(), true)]);
    assert_eq!(rep.portals, vec![("Screenshot".to_string(), 2)]);
    assert_eq!(rep.tools.len(), 2);
    assert!(rep.tools.iter().all(|t| t.available));
}
