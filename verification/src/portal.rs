//! The desktop-portal side: colours as the colour picker reports them,
//! portal errors and what they mean for a run, the portal versions found
//! at startup, the global-shortcut binding result, and the decisions of
//! the portal adapters.

use crate::availability::{entry_views, pairs_map, unique_names, AvailabilityView, VersionMap};
use crate::descriptor::ValueKind;
use crate::outcome::{OutcomeView, Stage, ToolOutcome};
use crate::text::{dec_nat, push_char, push_str, starts_with, str_eq, u64_to_string, views};
use vstd::prelude::*;

verus! {

// ---------------------------------------------------------------------------
// Colours

/// An 8-bit-per-channel colour.
#[derive(Debug, Clone, Copy, PartialEq, Eq, Structural)]
pub struct Rgb {
    pub r: u8,
    pub g: u8,
    pub b: u8,
}

/// The lower-case hexadecimal digit of `d` (below 16).
pub open spec fn hex_digit(d: int) -> char {
    if d < 10 {
        (d + 48) as char
    } else {
        (d + 87) as char
    }
}

/// Two lower-case hexadecimal digits (`{:02x}`).
pub open spec fn hex2(v: u8) -> Seq<char> {
    seq![hex_digit(v as int / 16), hex_digit(v as int % 16)]
}

fn hex_digit_exec(d: u8) -> (c: char)
    requires
        d < 16,
    ensures
        c == hex_digit(d as int),
{
    if d < 10 {
        (d + 48) as char
    } else {
        (d + 87) as char
    }
}

/// `#rrggbb`.
pub open spec fn hex_text(c: Rgb) -> Seq<char> {
    seq!['#'] + hex2(c.r) + hex2(c.g) + hex2(c.b)
}

/// `rgb(r, g, b)`.
pub open spec fn rgb_text(c: Rgb) -> Seq<char> {
    "rgb("@ + dec_nat(c.r as nat) + ", "@ + dec_nat(c.g as nat) + ", "@ + dec_nat(c.b as nat) + ")"@
}

/// A JSON object whose members are the given (name, string) pairs, as
/// `serde_json` writes it.
pub uninterp spec fn json_object_text(members: Seq<(Seq<char>, Seq<char>)>) -> Seq<char>;

/// Builds a `serde_json::Map` of the three string members and renders the
/// object with `serde_json`'s `Display`; the contract names the result.
#[verifier::external_body]
fn json_object3(k1: &str, v1: &str, k2: &str, v2: &str, k3: &str, v3: &str) -> (s: String)
    ensures
        s@ == json_object_text(seq![(k1@, v1@), (k2@, v2@), (k3@, v3@)]),
{
    let mut map = serde_json::Map::new();
    map.insert(k1.to_owned(), serde_json::Value::String(v1.to_owned()));
    map.insert(k2.to_owned(), serde_json::Value::String(v2.to_owned()));
    map.insert(k3.to_owned(), serde_json::Value::String(v3.to_owned()));
    serde_json::Value::Object(map).to_string()
}

impl Rgb {
    /// `#rrggbb` in lower-case hexadecimal.
    pub fn hex(&self) -> (s: String)
        ensures
            s@ == hex_text(*self),
    {
        let mut s = String::new();
        push_char(&mut s, '#');
        push_char(&mut s, hex_digit_exec(self.r / 16));
        push_char(&mut s, hex_digit_exec(self.r % 16));
        push_char(&mut s, hex_digit_exec(self.g / 16));
        push_char(&mut s, hex_digit_exec(self.g % 16));
        push_char(&mut s, hex_digit_exec(self.b / 16));
        push_char(&mut s, hex_digit_exec(self.b % 16));
        assert(s@ =~= hex_text(*self));
        s
    }

    /// `rgb(r, g, b)` in decimal.
    pub fn rgb_string(&self) -> (s: String)
        ensures
            s@ == rgb_text(*self),
    {
        let mut s = String::new();
        push_str(&mut s, "rgb(");
        let r = u64_to_string(self.r as u64);
        push_str(&mut s, r.as_str());
        push_str(&mut s, ", ");
        let g = u64_to_string(self.g as u64);
        push_str(&mut s, g.as_str());
        push_str(&mut s, ", ");
        let b = u64_to_string(self.b as u64);
        push_str(&mut s, b.as_str());
        push_str(&mut s, ")");
        s
    }

    /// The colour's value payload: a JSON object with its `hex` and `rgb`
    /// texts and `hsl`, its `hsl(h, s%, l%)` text (computed in binary64
    /// floating point, which this library does not hold).
    pub fn value_payload(&self, hsl: &str) -> (s: String)
        ensures
            s@ == json_object_text(seq![("hex"@, hex_text(*self)), ("rgb"@, rgb_text(*self)), ("hsl"@, hsl@)]),
    {
        let hex = self.hex();
        let rgb = self.rgb_string();
        json_object3("hex", hex.as_str(), "rgb", rgb.as_str(), "hsl", hsl)
    }
}

// ---------------------------------------------------------------------------
// Portal errors

/// An error of a desktop-portal operation.
#[derive(Debug)]
pub enum PortalError {
    /// The user dismissed the portal dialog.
    Cancelled,
    /// A D-Bus or portal transport failure.
    Transport(String),
    /// The portal answered with something that could not be interpreted.
    BadResponse(String),
}

/// The hint shown for a transport failure.
pub open spec fn transport_hint() -> Seq<char> {
    "the desktop portal service may not be running"@
}

/// What a portal error means for the run: a dismissed dialog is a silent
/// cancellation, the other errors fail at the portal stage.
pub open spec fn portal_error_outcome(e: PortalError) -> OutcomeView {
    match e {
        PortalError::Cancelled => OutcomeView::Cancelled,
        PortalError::Transport(d) => OutcomeView::Failed {
            stage: Stage::Portal,
            detail: d@,
            hint: Some(transport_hint()),
        },
        PortalError::BadResponse(d) => OutcomeView::Failed {
            stage: Stage::Portal,
            detail: d@,
            hint: None,
        },
    }
}

impl PortalError {
    /// The run's outcome for this error.
    pub fn into_outcome(self) -> (o: ToolOutcome)
        ensures
            o@ == portal_error_outcome(self),
    {
        match self {
            PortalError::Cancelled => ToolOutcome::Cancelled,
            PortalError::Transport(detail) => ToolOutcome::Failed {
                stage: Stage::Portal,
                detail,
                hint: Some("the desktop portal service may not be running".to_owned()),
            },
            PortalError::BadResponse(detail) => ToolOutcome::Failed {
                stage: Stage::Portal,
                detail,
                hint: None,
            },
        }
    }

    /// The error's display text.
    pub fn message(&self) -> (m: String)
        ensures
            m@ == match *self {
                PortalError::Cancelled => "portal request cancelled"@,
                PortalError::Transport(d) => "portal transport failed: "@ + d@,
                PortalError::BadResponse(d) => "portal returned a bad response: "@ + d@,
            },
    {
        let mut m = String::new();
        match self {
            PortalError::Cancelled => push_str(&mut m, "portal request cancelled"),
            PortalError::Transport(d) => {
                push_str(&mut m, "portal transport failed: ");
                push_str(&mut m, d.as_str());
            },
            PortalError::BadResponse(d) => {
                push_str(&mut m, "portal returned a bad response: ");
                push_str(&mut m, d.as_str());
            },
        }
        m
    }
}

#[verifier::external_type_specification]
#[verifier::external_body]
pub struct ExAshpdError(ashpd::Error);

#[verifier::external_type_specification]
#[verifier::external_body]
pub struct ExZbusError(zbus::Error);

/// Tells an `ashpd::Error` that is the user dismissing the dialog
/// (`Response(ResponseError::Cancelled)`) from any other, which comes back
/// as its display text. Nothing is stated of the text.
#[verifier::external_body]
fn ashpd_failure_text(error: ashpd::Error) -> (r: Option<String>) {
    match error {
        ashpd::Error::Response(ashpd::desktop::ResponseError::Cancelled) => None,
        other => Some(other.to_string()),
    }
}

/// The display text of a `zbus::Error`. Nothing is stated of it.
#[verifier::external_body]
fn zbus_failure_text(error: zbus::Error) -> (r: String) {
    error.to_string()
}

impl vstd::std_specs::convert::FromSpecImpl<ashpd::Error> for PortalError {
    open spec fn obeys_from_spec() -> bool {
        false
    }

    open spec fn from_spec(v: ashpd::Error) -> Self {
        PortalError::Cancelled
    }
}

impl From<ashpd::Error> for PortalError {
    /// A dismissed dialog is `Cancelled`; every other `ashpd` error is a
    /// transport failure carrying its text.
    fn from(error: ashpd::Error) -> (r: Self)
        ensures
            r is Cancelled || r is Transport,
    {
        match ashpd_failure_text(error) {
            None => PortalError::Cancelled,
            Some(text) => PortalError::Transport(text),
        }
    }
}

impl vstd::std_specs::convert::FromSpecImpl<zbus::Error> for PortalError {
    open spec fn obeys_from_spec() -> bool {
        false
    }

    open spec fn from_spec(v: zbus::Error) -> Self {
        PortalError::Transport(arbitrary())
    }
}

impl From<zbus::Error> for PortalError {
    /// A D-Bus error is a transport failure carrying its text.
    fn from(error: zbus::Error) -> (r: Self)
        ensures
            r is Transport,
    {
        PortalError::Transport(zbus_failure_text(error))
    }
}

// ---------------------------------------------------------------------------
// Portal versions

/// The prefix of the portal interfaces' names.
pub const PORTAL_PREFIX: &'static str = "org.freedesktop.portal.";

/// Short portal interface names with their versions.
#[derive(Debug, Clone)]
pub struct PortalMap {
    versions: VersionMap,
}

impl View for PortalMap {
    type V = Map<Seq<char>, u32>;

    closed spec fn view(&self) -> Map<Seq<char>, u32> {
        self.versions@
    }
}

impl PortalMap {
    /// An empty map.
    pub fn new() -> (m: Self)
        ensures
            m@ == Map::<Seq<char>, u32>::empty(),
    {
        PortalMap { versions: VersionMap::new() }
    }

    /// The version of the interface with this short name.
    pub fn get(&self, iface_short: &str) -> (r: Option<u32>)
        ensures
            r matches Some(v) ==> self@.contains_key(iface_short@) && self@[iface_short@] == v,
            r is None ==> !self@.contains_key(iface_short@),
    {
        self.versions.get(iface_short)
    }

    /// Records the version of the interface with this short name.
    pub fn insert(&mut self, iface_short: String, version: u32)
        ensures
            final(self)@ == old(self)@.insert(iface_short@, version),
    {
        self.versions.insert(iface_short, version);
    }

    /// Every (short name, version) pair, each name once.
    pub fn iter(&self) -> (r: Vec<(String, u32)>)
        ensures
            pairs_map(entry_views(r@)) == self@,
            unique_names(entry_views(r@)),
    {
        self.versions.entries()
    }

    /// Whether no interface was found.
    pub fn is_empty(&self) -> (b: bool)
        ensures
            b == (self@.dom().len() == 0),
    {
        let entries = self.versions.entries();
        proof {
            lemma_pairs_map_len(entry_views(entries@));
        }
        entries.len() == 0
    }

    /// Adds these versions to an availability view, replacing the versions
    /// it had for the same interfaces.
    pub fn apply_to(&self, view: &mut AvailabilityView)
        ensures
            final(view).portals@ == old(view).portals@.union_prefer_right(self@),
            final(view).binaries@ == old(view).binaries@,
    {
        let entries = self.versions.entries();
        let ghost ev = entry_views(entries@);
        let mut i: usize = 0;
        while i < entries.len()
            invariant
                i <= entries@.len(),
                ev == entry_views(entries@),
                view.portals@ == old(view).portals@.union_prefer_right(pairs_map(ev.take(i as int))),
                view.binaries@ == old(view).binaries@,
            decreases entries.len() - i,
        {
            view.portals.insert(entries[i].0.clone(), entries[i].1);
            assert(ev.take(i + 1).drop_last() =~= ev.take(i as int));
            assert(ev.take(i + 1).last() == ev[i as int]);
            assert(view.portals@ =~= old(view).portals@.union_prefer_right(pairs_map(ev.take(i + 1))));
            i += 1;
        }
        assert(ev.take(i as int) =~= ev);
    }
}

impl Default for PortalMap {
    fn default() -> (m: Self)
        ensures
            m@ == Map::<Seq<char>, u32>::empty(),
    {
        PortalMap::new()
    }
}

proof fn lemma_pairs_map_len(s: Seq<(Seq<char>, u32)>)
    ensures
        pairs_map(s).dom().finite(),
        pairs_map(s).dom().len() == 0 <==> s.len() == 0,
    decreases s.len(),
{
    if s.len() > 0 {
        lemma_pairs_map_len(s.drop_last());
        assert(pairs_map(s).dom().contains(s.last().0));
    }
}

/// The names of the interfaces in a D-Bus introspection document, in
/// document order, as `zbus_xml` reads it; `None` when it does not parse.
pub uninterp spec fn introspected_interfaces(xml: Seq<char>) -> Option<Seq<Seq<char>>>;

/// Parses with `zbus_xml::Node::from_reader` and lists the node's
/// interfaces' names; the contract names the result.
#[verifier::external_body]
fn interface_names(xml: &str) -> (r: Option<Vec<String>>)
    ensures
        r matches Some(v) ==> introspected_interfaces(xml@) == Some(views(v@)),
        r is None ==> introspected_interfaces(xml@) is None,
{
    zbus_xml::Node::from_reader(xml.as_bytes()).ok().map(
        |node| node.interfaces().iter().map(|i| i.name().as_str().to_owned()).collect(),
    )
}

/// The portal versions a list of interface names gives: every name under
/// the portal prefix, by its short name, at version zero.
pub open spec fn portal_versions_of(names: Seq<Seq<char>>) -> Map<Seq<char>, u32>
    decreases names.len(),
{
    if names.len() == 0 {
        Map::empty()
    } else {
        let rest = portal_versions_of(names.drop_last());
        let n = names.last();
        if starts_with(n, PORTAL_PREFIX@) {
            rest.insert(n.skip(PORTAL_PREFIX@.len() as int), 0)
        } else {
            rest
        }
    }
}

/// The portal interfaces named in an introspection document, each at
/// version zero; an empty map when the document does not parse.
pub fn parse_portal_versions(introspect_xml: &str) -> (m: PortalMap)
    ensures
        m@ == match introspected_interfaces(introspect_xml@) {
            Some(names) => portal_versions_of(names),
            None => Map::empty(),
        },
{
    let mut m = PortalMap::new();
    let names = match interface_names(introspect_xml) {
        Some(v) => v,
        None => {
            return m;
        },
    };
    let ghost ns = views(names@);
    let prefix = crate::text::chars_of(PORTAL_PREFIX);
    let mut i: usize = 0;
    while i < names.len()
        invariant
            i <= names@.len(),
            ns == views(names@),
            prefix@ == PORTAL_PREFIX@,
            m@ == portal_versions_of(ns.take(i as int)),
        decreases names.len() - i,
    {
        let c = crate::text::chars_of(names[i].as_str());
        assert(ns.take(i + 1).drop_last() =~= ns.take(i as int));
        assert(ns.take(i + 1).last() == c@);
        if crate::text::chars_start_with(&c, &prefix) {
            let mut short = String::new();
            let mut k: usize = prefix.len();
            while k < c.len()
                invariant
                    prefix@.len() <= k <= c@.len(),
                    short@ == c@.subrange(prefix@.len() as int, k as int),
                decreases c.len() - k,
            {
                push_char(&mut short, c[k]);
                k += 1;
                assert(short@ =~= c@.subrange(prefix@.len() as int, k as int));
            }
            assert(short@ =~= c@.skip(prefix@.len() as int));
            m.insert(short, 0);
        }
        i += 1;
    }
    assert(ns.take(i as int) =~= ns);
    m
}

// ---------------------------------------------------------------------------
// The global shortcut

/// The one shortcut registered.
pub const SHORTCUT_ID: &'static str = "show-palette";

/// The trigger suggested to the desktop environment, whose own binding UI
/// has the final say.
pub const PREFERRED_TRIGGER: &'static str = "<Super>w";

/// What to bind in the desktop's own settings when the portal is missing:
/// relaunching the shell binary, which hands over to the running instance.
pub const FALLBACK_COMMAND: &'static str = "wield-app";

/// The result of trying to bind the shortcut.
#[derive(Debug, Clone, PartialEq, Eq)]
pub enum BindOutcome {
    /// The shortcut is bound.
    Bound,
    /// The portal is missing, too old, or binding failed otherwise.
    Unavailable { fallback_command: String },
}

/// What a bind attempt's result becomes: bound, or unavailable with the
/// fallback command.
pub fn bind_outcome(bound: bool) -> (o: BindOutcome)
    ensures
        bound ==> o is Bound,
        !bound ==> (o matches BindOutcome::Unavailable { fallback_command } && fallback_command@
            == FALLBACK_COMMAND@),
{
    if bound {
        BindOutcome::Bound
    } else {
        BindOutcome::Unavailable { fallback_command: FALLBACK_COMMAND.to_owned() }
    }
}

// ---------------------------------------------------------------------------
// Adapters

/// The portal adapters there are.
#[derive(Debug, Clone, Copy, PartialEq, Eq)]
pub enum Adapter {
    PickColor,
}

/// The adapter a descriptor's key names, or the failure for an unknown key.
pub fn route_adapter(key: &str) -> (r: Result<Adapter, ToolOutcome>)
    ensures
        key@ == "screenshot.pick_color"@ ==> r matches Ok(Adapter::PickColor),
        key@ != "screenshot.pick_color"@ ==> (r matches Err(o) && o@ == (OutcomeView::Failed {
            stage: Stage::Portal,
            detail: "unknown portal adapter: "@ + key@,
            hint: Some("this is a bug in the tool descriptor"@),
        })),
{
    if str_eq(key, "screenshot.pick_color") {
        Ok(Adapter::PickColor)
    } else {
        let mut detail = String::new();
        push_str(&mut detail, "unknown portal adapter: ");
        push_str(&mut detail, key);
        Err(ToolOutcome::Failed {
            stage: Stage::Portal,
            detail,
            hint: Some("this is a bug in the tool descriptor".to_owned()),
        })
    }
}

/// Dispatches named desktop portal adapters.
#[derive(Debug, Default, Clone, Copy)]
pub struct PortalAdapterRunner;

impl PortalAdapterRunner {
    /// The adapter a key names, or the failure for an unknown key.
    pub fn route(&self, adapter: &str) -> (r: Result<Adapter, ToolOutcome>)
        ensures
            adapter@ == "screenshot.pick_color"@ ==> r matches Ok(Adapter::PickColor),
            adapter@ != "screenshot.pick_color"@ ==> (r matches Err(o) && o@ == (OutcomeView::Failed {
                stage: Stage::Portal,
                detail: "unknown portal adapter: "@ + adapter@,
                hint: Some("this is a bug in the tool descriptor"@),
            })),
    {
        route_adapter(adapter)
    }
}

/// What a colour pick's result becomes: the colour's payload (with its hsl
/// text) as a colour value, or what the error means.
pub fn picked_outcome(result: Result<(Rgb, String), PortalError>) -> (o: ToolOutcome)
    ensures
        result matches Ok((c, hsl)) ==> o@ == (OutcomeView::Value {
            kind: ValueKind::Color,
            data: json_object_text(seq![("hex"@, hex_text(c)), ("rgb"@, rgb_text(c)), ("hsl"@, hsl@)]),
        }),
        result matches Err(e) ==> o@ == portal_error_outcome(e),
{
    match result {
        Ok((c, hsl)) => ToolOutcome::Value { kind: ValueKind::Color, data: c.value_payload(hsl.as_str()) },
        Err(e) => e.into_outcome(),
    }
}

/// The report title of the keep-awake toggle.
pub open spec fn keep_awake_title() -> Seq<char> {
    "Keep awake"@
}

/// What the keep-awake toggle does next: release the held inhibit and
/// report it off, or start a new one.
#[derive(Debug)]
pub enum ToggleStep {
    TurnOff(ToolOutcome),
    Start,
}

/// The keep-awake toggle's first decision: with an inhibit held it is
/// turned off, otherwise one is started.
pub fn toggle_step(held: bool) -> (s: ToggleStep)
    ensures
        held ==> (s matches ToggleStep::TurnOff(o) && o@ == (OutcomeView::Report {
            title: keep_awake_title(),
            lines: seq!["Turned off - normal sleep and screensaver behavior is restored."@],
        })),
        !held ==> s is Start,
{
    if held {
        let mut lines: Vec<String> = Vec::new();
        lines.push("Turned off - normal sleep and screensaver behavior is restored.".to_owned());
        let o = ToolOutcome::Report { title: "Keep awake".to_owned(), lines };
        assert(views(lines@) =~= seq!["Turned off - normal sleep and screensaver behavior is restored."@]);
        ToggleStep::TurnOff(o)
    } else {
        ToggleStep::Start
    }
}

/// What starting an inhibit became: held and reported on, or not held and
/// the error's outcome.
pub fn started_outcome(result: Result<(), PortalError>) -> (r: (bool, ToolOutcome))
    ensures
        result is Ok ==> r.0 && r.1@ == (OutcomeView::Report {
            title: keep_awake_title(),
            lines: seq!["Turned on - your screen won't sleep or lock until you toggle this off again."@],
        }),
        result matches Err(e) ==> !r.0 && r.1@ == portal_error_outcome(e),
{
    match result {
        Ok(()) => {
            let mut lines: Vec<String> = Vec::new();
            lines.push(
                "Turned on - your screen won't sleep or lock until you toggle this off again.".to_owned(),
            );
            assert(views(lines@) =~= seq![
                "Turned on - your screen won't sleep or lock until you toggle this off again."@,
            ]);
            (true, ToolOutcome::Report { title: "Keep awake".to_owned(), lines })
        },
        Err(e) => (false, e.into_outcome()),
    }
}

} // verus!
