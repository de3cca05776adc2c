//! Declarative Pelagian Shell configuration: strict, versioned layers resolved
//! as built-in defaults, one selected workload profile, then lexically ordered
//! local drop-ins.  Scalars are last-layer-wins; window rules append.
//!
//! Reading and decoding the TOML files is the caller's part; this module
//! validates, orders and merges the decoded layers.

use vstd::prelude::*;

use crate::lines::{blank, is_blank};
use crate::model::views;
use crate::runtime::text_of;
use crate::text::{
    chars_of, concat, concat3, decimal, decimal_string, lemma_lex_total, lemma_lex_transitive, lex_le,
    lex_le_exec,
};

verus! {

/// The schema version every layer must declare.
pub const SCHEMA_VERSION: u32 = 1;

/// Where built-in data and local overrides live.
#[derive(Clone, Debug, PartialEq, Eq)]
pub struct ConfigRoots {
    pub share: String,
    pub etc: String,
}

#[derive(Clone, Debug, PartialEq, Eq)]
pub struct Config {
    pub schema_version: u32,
    pub layout: Layout,
    pub decorations: Decorations,
    pub theme: Theme,
    pub capabilities: Capabilities,
    pub window_rules: Vec<WindowRule>,
}

#[derive(Clone, Copy, Debug, PartialEq, Eq)]
pub struct Layout {
    pub mode: LayoutMode,
    pub solo: SoloMode,
    pub multiple: MultipleMode,
    pub dialogs: DialogMode,
    pub max_managed_windows: u8,
}

#[derive(Clone, Copy, Debug, PartialEq, Eq, Structural)]
pub enum LayoutMode {
    Auto,
    Float,
}

#[derive(Clone, Copy, Debug, PartialEq, Eq, Structural)]
pub enum SoloMode {
    Maximized,
}

#[derive(Clone, Copy, Debug, PartialEq, Eq, Structural)]
pub enum MultipleMode {
    Automatic,
}

#[derive(Clone, Copy, Debug, PartialEq, Eq, Structural)]
pub enum DialogMode {
    Floating,
}

#[derive(Clone, Copy, Debug, PartialEq, Eq)]
pub struct Decorations {
    pub solo: DecorationMode,
    pub tiled: DecorationMode,
    pub floating: DecorationMode,
}

#[derive(Clone, Copy, Debug, PartialEq, Eq, Structural)]
pub enum DecorationMode {
    /// Written `none` in configuration files.
    Undecorated,
    Border,
    Full,
}

#[derive(Clone, Copy, Debug, PartialEq, Eq)]
pub struct Theme {
    pub variant: ThemeVariant,
}

#[derive(Clone, Copy, Debug, PartialEq, Eq, Structural)]
pub enum ThemeVariant {
    Dark,
}

#[derive(Clone, Copy, Debug, PartialEq, Eq)]
pub struct Capabilities {
    pub wine: bool,
}

#[derive(Clone, Debug, PartialEq, Eq)]
pub struct WindowRule {
    pub app_id: String,
    pub title: Option<String>,
    pub disposition: WindowDisposition,
}

#[derive(Clone, Copy, Debug, PartialEq, Eq, Structural)]
pub enum WindowDisposition {
    Managed,
    Floating,
    Ignored,
}

/// A configuration failure and its description.
#[derive(Debug)]
pub struct ConfigError {
    message: String,
}

impl View for ConfigError {
    type V = Seq<char>;

    closed spec fn view(&self) -> Seq<char> {
        self.message@
    }
}

impl ConfigError {
    pub fn new(message: String) -> (e: Self)
        ensures
            e@ == message@,
    {
        ConfigError { message }
    }

    /// The human-readable description.
    pub fn message(&self) -> (m: String)
        ensures
            m@ == self@,
    {
        self.message.clone()
    }
}

/// The optional settings of one profile or drop-in layer.
#[derive(Clone, Debug, PartialEq, Eq)]
pub struct ConfigPatch {
    pub schema_version: u32,
    pub layout: Option<LayoutPatch>,
    pub decorations: Option<DecorationsPatch>,
    pub theme: Option<ThemePatch>,
    pub capabilities: Option<CapabilitiesPatch>,
    pub window_rules: Vec<WindowRule>,
}

#[derive(Clone, Copy, Debug, PartialEq, Eq)]
pub struct LayoutPatch {
    pub mode: Option<LayoutMode>,
    pub solo: Option<SoloMode>,
    pub multiple: Option<MultipleMode>,
    pub dialogs: Option<DialogMode>,
    pub max_managed_windows: Option<u8>,
}

#[derive(Clone, Copy, Debug, PartialEq, Eq)]
pub struct DecorationsPatch {
    pub solo: Option<DecorationMode>,
    pub tiled: Option<DecorationMode>,
    pub floating: Option<DecorationMode>,
}

#[derive(Clone, Copy, Debug, PartialEq, Eq)]
pub struct ThemePatch {
    pub variant: Option<ThemeVariant>,
}

#[derive(Clone, Copy, Debug, PartialEq, Eq)]
pub struct CapabilitiesPatch {
    pub wine: Option<bool>,
}

impl LayoutMode {
    pub fn as_str(&self) -> (r: &'static str)
        ensures
            r@ == match self {
                LayoutMode::Auto => "auto"@,
                LayoutMode::Float => "float"@,
            },
    {
        match self {
            LayoutMode::Auto => "auto",
            LayoutMode::Float => "float",
        }
    }
}

/// The patch value when present, else the current one.
pub open spec fn or_keep<T>(patch: Option<T>, current: T) -> T {
    match patch {
        Some(v) => v,
        None => current,
    }
}

pub open spec fn patched_layout(l: Layout, p: Option<LayoutPatch>) -> Layout {
    match p {
        None => l,
        Some(p) => Layout {
            mode: or_keep(p.mode, l.mode),
            solo: or_keep(p.solo, l.solo),
            multiple: or_keep(p.multiple, l.multiple),
            dialogs: or_keep(p.dialogs, l.dialogs),
            max_managed_windows: or_keep(p.max_managed_windows, l.max_managed_windows),
        },
    }
}

pub open spec fn patched_decorations(d: Decorations, p: Option<DecorationsPatch>) -> Decorations {
    match p {
        None => d,
        Some(p) => Decorations {
            solo: or_keep(p.solo, d.solo),
            tiled: or_keep(p.tiled, d.tiled),
            floating: or_keep(p.floating, d.floating),
        },
    }
}

pub open spec fn patched_theme(t: Theme, p: Option<ThemePatch>) -> Theme {
    match p {
        None => t,
        Some(p) => Theme { variant: or_keep(p.variant, t.variant) },
    }
}

pub open spec fn patched_capabilities(c: Capabilities, p: Option<CapabilitiesPatch>) -> Capabilities {
    match p {
        None => c,
        Some(p) => Capabilities { wine: or_keep(p.wine, c.wine) },
    }
}

/// The message of the first invalid rule, if any.
pub open spec fn rules_error(rules: Seq<WindowRule>) -> Option<Seq<char>>
    decreases rules.len(),
{
    if rules.len() == 0 {
        None
    } else {
        match rule_error(rules[0]) {
            Some(m) => Some(m),
            None => rules_error(rules.drop_first()),
        }
    }
}

/// A rule needs a non-blank application id and, when it has one, a nonempty title.
pub open spec fn rule_error(rule: WindowRule) -> Option<Seq<char>> {
    if blank(rule.app_id@) {
        Some("window_rules.app_id must not be empty"@)
    } else if rule.title matches Some(t) && t@.len() == 0 {
        Some("window_rules.title must not be empty when provided"@)
    } else {
        None
    }
}

/// All three decorations are `full`, the only mode schema 1 supports.
pub open spec fn full_decorations(d: Decorations) -> bool {
    d.solo == DecorationMode::Full && d.tiled == DecorationMode::Full && d.floating
        == DecorationMode::Full
}

/// The decorations a patch names are all `full`.
pub open spec fn full_decoration_patch(p: Option<DecorationsPatch>) -> bool {
    match p {
        None => true,
        Some(p) => (p.solo is None || p.solo == Some(DecorationMode::Full)) && (p.tiled is None
            || p.tiled == Some(DecorationMode::Full)) && (p.floating is None || p.floating == Some(
            DecorationMode::Full,
        )),
    }
}

pub open spec fn schema_message(v: u32) -> Seq<char> {
    "unsupported schema_version "@ + decimal(v as nat) + "; expected 1"@
}

pub open spec fn decorations_message() -> Seq<char> {
    "decorations.solo, decorations.tiled and decorations.floating must be full"@
}

/// Why an effective configuration is refused: wrong schema, a managed-window ceiling
/// outside 1..=6, a decoration other than `full`, or an invalid rule.
pub open spec fn config_error_of(
    schema_version: u32,
    layout: Layout,
    decorations: Decorations,
    rules: Seq<WindowRule>,
) -> Option<Seq<char>> {
    if schema_version != 1 {
        Some(schema_message(schema_version))
    } else if !(1 <= layout.max_managed_windows <= 6) {
        Some("layout.max_managed_windows must be between 1 and 6"@)
    } else if !full_decorations(decorations) {
        Some(decorations_message())
    } else {
        rules_error(rules)
    }
}

pub open spec fn config_error(c: Config) -> Option<Seq<char>> {
    config_error_of(c.schema_version, c.layout, c.decorations, c.window_rules@)
}

/// Why a layer read from `source` is refused.
pub open spec fn patch_error(source: Seq<char>, p: ConfigPatch) -> Option<Seq<char>> {
    if p.schema_version != 1 {
        Some(source + ": "@ + schema_message(p.schema_version))
    } else if !full_decoration_patch(p.decorations) {
        Some(decorations_message())
    } else {
        rules_error(p.window_rules@)
    }
}

/// A profile name is nonempty ASCII letters, digits, `-` and `_`.
pub open spec fn valid_profile_name(s: Seq<char>) -> bool {
    s.len() > 0 && forall|i: int|
        0 <= i < s.len() ==> ('a' <= #[trigger] s[i] <= 'z' || 'A' <= s[i] <= 'Z' || '0' <= s[i]
            <= '9' || s[i] == '-' || s[i] == '_')
}

/// The `Debug` rendering of a string: quoted, with escapes.
pub uninterp spec fn debug_quoted(s: Seq<char>) -> Seq<char>;

/// Renders a string with `format!("{s:?}")`, the `Debug` impl of `str`.  Believed, not
/// proved: the text is `debug_quoted` of the characters, since it depends on them
/// alone; nothing more of the quoting and escaping is claimed.
#[verifier::external_body]
fn quote_debug(s: &str) -> (r: String)
    ensures
        r@ == debug_quoted(s@),
{
    format!("{s:?}")
}

pub open spec fn profile_name_message(s: Seq<char>) -> Seq<char> {
    "invalid profile name "@ + debug_quoted(s) + "; use only ASCII letters, digits, '-' or '_'"@
}

pub fn validate_profile_name(profile: &str) -> (r: Result<(), ConfigError>)
    ensures
        valid_profile_name(profile@) ==> r is Ok,
        !valid_profile_name(profile@) ==> (r matches Err(e) && e@ == profile_name_message(
            profile@,
        )),
{
    let cs = chars_of(profile);
    let mut ok = cs.len() > 0;
    let mut i: usize = 0;
    while ok && i < cs.len()
        invariant
            cs@ == profile@,
            i <= cs@.len(),
            ok ==> cs@.len() > 0,
            ok ==> forall|j: int|
                0 <= j < i ==> ('a' <= #[trigger] cs@[j] <= 'z' || 'A' <= cs@[j] <= 'Z' || '0'
                    <= cs@[j] <= '9' || cs@[j] == '-' || cs@[j] == '_'),
            !ok ==> !valid_profile_name(profile@),
        decreases cs@.len() - i,
    {
        let c = cs[i];
        if !(('a' <= c && c <= 'z') || ('A' <= c && c <= 'Z') || ('0' <= c && c <= '9') || c == '-'
            || c == '_') {
            ok = false;
        }
        i += 1;
    }
    if ok {
        Ok(())
    } else {
        let quoted = quote_debug(profile);
        Err(
            ConfigError::new(
                concat3(
                    "invalid profile name ",
                    quoted.as_str(),
                    "; use only ASCII letters, digits, '-' or '_'",
                ),
            ),
        )
    }
}

pub fn validate_rule(rule: &WindowRule) -> (r: Result<(), ConfigError>)
    ensures
        match rule_error(*rule) {
            None => r is Ok,
            Some(m) => r matches Err(e) && e@ == m,
        },
{
    if is_blank(&chars_of(rule.app_id.as_str())) {
        return Err(ConfigError::new("window_rules.app_id must not be empty".to_owned()));
    }
    match &rule.title {
        Some(title) => {
            if title.as_str().is_empty() {
                return Err(
                    ConfigError::new("window_rules.title must not be empty when provided".to_owned()),
                );
            }
        },
        None => {},
    }
    Ok(())
}

fn validate_rules(rules: &Vec<WindowRule>) -> (r: Result<(), ConfigError>)
    ensures
        match rules_error(rules@) {
            None => r is Ok,
            Some(m) => r matches Err(e) && e@ == m,
        },
{
    let ghost all = rules@;
    let mut i: usize = 0;
    assert(all.skip(0) =~= all);
    while i < rules.len()
        invariant
            all == rules@,
            i <= all.len(),
            rules_error(all) == rules_error(all.skip(i as int)),
        decreases all.len() - i,
    {
        assert(all.skip(i as int)[0] == all[i as int]);
        assert(all.skip(i as int).drop_first() =~= all.skip(i + 1));
        validate_rule(&rules[i])?;
        i += 1;
    }
    assert(all.skip(i as int) =~= Seq::<WindowRule>::empty());
    Ok(())
}

fn schema_error_text(v: u32) -> (r: String)
    ensures
        r@ == schema_message(v),
{
    let number = decimal_string(v as u64);
    concat3("unsupported schema_version ", number.as_str(), "; expected 1")
}

fn is_full(m: DecorationMode) -> (r: bool)
    ensures
        r == (m == DecorationMode::Full),
{
    match m {
        DecorationMode::Full => true,
        _ => false,
    }
}

pub fn validate_config(config: &Config) -> (r: Result<(), ConfigError>)
    ensures
        match config_error(*config) {
            None => r is Ok,
            Some(m) => r matches Err(e) && e@ == m,
        },
{
    if config.schema_version != SCHEMA_VERSION {
        return Err(ConfigError::new(schema_error_text(config.schema_version)));
    }
    if !(1 <= config.layout.max_managed_windows && config.layout.max_managed_windows <= 6) {
        return Err(
            ConfigError::new("layout.max_managed_windows must be between 1 and 6".to_owned()),
        );
    }
    let d = config.decorations;
    if !(is_full(d.solo) && is_full(d.tiled) && is_full(d.floating)) {
        return Err(
            ConfigError::new(
                "decorations.solo, decorations.tiled and decorations.floating must be full".to_owned(),
            ),
        );
    }
    validate_rules(&config.window_rules)
}

/// Checks one profile or drop-in layer read from `source`.
pub fn check_patch(source: &str, patch: &ConfigPatch) -> (r: Result<(), ConfigError>)
    ensures
        match patch_error(source@, *patch) {
            None => r is Ok,
            Some(m) => r matches Err(e) && e@ == m,
        },
{
    if patch.schema_version != SCHEMA_VERSION {
        let text = schema_error_text(patch.schema_version);
        return Err(ConfigError::new(concat3(source, ": ", text.as_str())));
    }
    match patch.decorations {
        Some(d) => {
            let solo_ok = match d.solo {
                Some(m) => is_full(m),
                None => true,
            };
            let tiled_ok = match d.tiled {
                Some(m) => is_full(m),
                None => true,
            };
            let floating_ok = match d.floating {
                Some(m) => is_full(m),
                None => true,
            };
            if !(solo_ok && tiled_ok && floating_ok) {
                return Err(
                    ConfigError::new(
                        "decorations.solo, decorations.tiled and decorations.floating must be full".to_owned(),
                    ),
                );
            }
        },
        None => {},
    }
    validate_rules(&patch.window_rules)
}

fn patch_layout(l: Layout, p: Option<LayoutPatch>) -> (r: Layout)
    ensures
        r == patched_layout(l, p),
{
    let mut l = l;
    if let Some(layout) = p {
        if let Some(mode) = layout.mode {
            l.mode = mode;
        }
        if let Some(solo) = layout.solo {
            l.solo = solo;
        }
        if let Some(multiple) = layout.multiple {
            l.multiple = multiple;
        }
        if let Some(dialogs) = layout.dialogs {
            l.dialogs = dialogs;
        }
        if let Some(maximum) = layout.max_managed_windows {
            l.max_managed_windows = maximum;
        }
    }
    l
}

fn patch_decorations(d: Decorations, p: Option<DecorationsPatch>) -> (r: Decorations)
    ensures
        r == patched_decorations(d, p),
{
    let mut d = d;
    if let Some(decorations) = p {
        if let Some(solo) = decorations.solo {
            d.solo = solo;
        }
        if let Some(tiled) = decorations.tiled {
            d.tiled = tiled;
        }
        if let Some(floating) = decorations.floating {
            d.floating = floating;
        }
    }
    d
}

/// Applies one layer: each setting it names replaces the current one; its window
/// rules are appended after the current ones.
pub fn apply_patch(config: &mut Config, patch: ConfigPatch)
    ensures
        final(config).schema_version == old(config).schema_version,
        final(config).layout == patched_layout(old(config).layout, patch.layout),
        final(config).decorations == patched_decorations(old(config).decorations, patch.decorations),
        final(config).theme == patched_theme(old(config).theme, patch.theme),
        final(config).capabilities == patched_capabilities(
            old(config).capabilities,
            patch.capabilities,
        ),
        final(config).window_rules@ == old(config).window_rules@ + patch.window_rules@,
{
    config.layout = patch_layout(config.layout, patch.layout);
    config.decorations = patch_decorations(config.decorations, patch.decorations);
    if let Some(theme) = patch.theme {
        if let Some(variant) = theme.variant {
            config.theme.variant = variant;
        }
    }
    if let Some(capabilities) = patch.capabilities {
        if let Some(wine) = capabilities.wine {
            config.capabilities.wine = wine;
        }
    }
    let mut rules = patch.window_rules;
    config.window_rules.append(&mut rules);
}

} // verus!

verus! {

/// The effective configuration and the files it came from, in layer order.
#[derive(Clone, Debug, PartialEq, Eq)]
pub struct ResolvedConfig {
    pub config: Config,
    pub sources: Vec<String>,
}

/// The built-in defaults as read from `source`.
#[derive(Debug)]
pub struct DefaultsLayer {
    pub source: String,
    pub config: Result<Config, ConfigError>,
}

/// One profile or drop-in layer as read from `source`.
#[derive(Debug)]
pub struct ConfigLayer {
    pub source: String,
    pub patch: Result<ConfigPatch, ConfigError>,
}

/// The names are in lexical order.
pub open spec fn lex_sorted(s: Seq<Seq<char>>) -> bool {
    forall|i: int, j: int| 0 <= i < j < s.len() ==> lex_le(#[trigger] s[i], #[trigger] s[j])
}

/// The file name has the extension `toml` (something, a dot, then `toml`).
pub open spec fn toml_name(n: Seq<char>) -> bool {
    n.len() > 5 && n.subrange(n.len() - 5, n.len() as int) == ".toml"@
}

/// The names with the `toml` extension, in their order.
pub open spec fn toml_names(s: Seq<Seq<char>>) -> Seq<Seq<char>>
    decreases s.len(),
{
    if s.len() == 0 {
        s
    } else if toml_name(s.last()) {
        toml_names(s.drop_last()).push(s.last())
    } else {
        toml_names(s.drop_last())
    }
}

fn is_toml_name(name: &Vec<char>) -> (r: bool)
    ensures
        r == toml_name(name@),
{
    let n = name.len();
    if n <= 5 {
        return false;
    }
    let suffix = ['.', 't', 'o', 'm', 'l'];
    let mut i: usize = 0;
    while i < 5
        invariant
            n == name@.len(),
            n > 5,
            i <= 5,
            suffix@ == seq!['.', 't', 'o', 'm', 'l'],
            forall|j: int| 0 <= j < i ==> name@[n - 5 + j] == suffix@[j],
        decreases 5 - i,
    {
        if name[n - 5 + i] != suffix[i] {
            proof {
                reveal_strlit(".toml");
                assert(name@.subrange(n - 5, n as int)[i as int] != ".toml"@[i as int]);
            }
            return false;
        }
        i += 1;
    }
    proof {
        reveal_strlit(".toml");
        assert(name@.subrange(n - 5, n as int) =~= ".toml"@);
    }
    true
}

/// The drop-in files to apply: the names with the `toml` extension, in lexical order.
pub fn select_drop_ins(names: &Vec<String>) -> (r: Vec<String>)
    ensures
        lex_sorted(views(r@)),
        views(r@).to_multiset() == toml_names(views(names@)).to_multiset(),
{
    let mut kept: Vec<String> = Vec::new();
    let mut i: usize = 0;
    while i < names.len()
        invariant
            i <= names@.len(),
            views(kept@) == toml_names(views(names@).take(i as int)),
        decreases names@.len() - i,
    {
        let ghost before = kept@;
        assert(views(names@).take(i + 1).drop_last() =~= views(names@).take(i as int));
        assert(views(names@).take(i + 1).last() == names@[i as int]@);
        let cs = chars_of(names[i].as_str());
        if is_toml_name(&cs) {
            kept.push(names[i].clone());
            assert(views(kept@) =~= views(before).push(names@[i as int]@));
        }
        i += 1;
    }
    assert(views(names@).take(names@.len() as int) =~= views(names@));
    let mut sorted: Vec<String> = Vec::new();
    let mut k: usize = 0;
    assert(views(sorted@) =~= views(kept@).take(0));
    while k < kept.len()
        invariant
            k <= kept@.len(),
            lex_sorted(views(sorted@)),
            views(sorted@).to_multiset() == views(kept@).take(k as int).to_multiset(),
        decreases kept@.len() - k,
    {
        let name = chars_of(kept[k].as_str());
        let mut p: usize = 0;
        while p < sorted.len() && lex_le_exec(&chars_of(sorted[p].as_str()), &name)
            invariant
                p <= sorted@.len(),
                k < kept@.len(),
                name@ == kept@[k as int]@,
                forall|j: int| 0 <= j < p ==> lex_le(#[trigger] sorted@[j]@, name@),
            decreases sorted@.len() - p,
        {
            p += 1;
        }
        let ghost before = sorted@;
        proof {
            if p < before.len() {
                lemma_lex_total(before[p as int]@, name@);
            }
        }
        sorted.insert(p, kept[k].clone());
        proof {
            let after = sorted@;
            assert(views(after) =~= views(before).insert(p as int, name@));
            assert forall|i: int, j: int| 0 <= i < j < views(after).len() implies lex_le(
                #[trigger] views(after)[i],
                #[trigger] views(after)[j],
            ) by {
                if j < p {
                    assert(views(after)[i] == views(before)[i] && views(after)[j] == views(before)[j]);
                } else if j == p {
                    assert(views(after)[i] == views(before)[i]);
                } else if i < p {
                    assert(views(after)[i] == views(before)[i]);
                    assert(views(after)[j] == views(before)[j - 1]);
                    lemma_lex_transitive(before[i]@, name@, before[p as int]@);
                    if j - 1 > p {
                        assert(lex_le(views(before)[p as int], views(before)[j - 1]));
                        lemma_lex_transitive(before[i]@, before[p as int]@, before[j - 1]@);
                    }
                } else if i == p {
                    assert(views(after)[j] == views(before)[j - 1]);
                    if j - 1 > p {
                        assert(lex_le(views(before)[p as int], views(before)[j - 1]));
                        lemma_lex_transitive(name@, before[p as int]@, before[j - 1]@);
                    }
                } else {
                    assert(views(after)[i] == views(before)[i - 1]);
                    assert(views(after)[j] == views(before)[j - 1]);
                }
            }
            vstd::seq_lib::to_multiset_insert(views(before), p as int, name@);
            assert(views(kept@).take(k + 1) =~= views(kept@).take(k as int).push(name@));
            vstd::seq_lib::to_multiset_build(views(kept@).take(k as int), name@);
        }
        k += 1;
    }
    assert(views(kept@).take(kept@.len() as int) =~= views(kept@));
    sorted
}

} // verus!

verus! {

/// The settings of `ps` applied in order on top of `l`.
pub open spec fn layered_layout(l: Layout, ps: Seq<ConfigPatch>) -> Layout
    decreases ps.len(),
{
    if ps.len() == 0 {
        l
    } else {
        patched_layout(layered_layout(l, ps.drop_last()), ps.last().layout)
    }
}

pub open spec fn layered_decorations(d: Decorations, ps: Seq<ConfigPatch>) -> Decorations
    decreases ps.len(),
{
    if ps.len() == 0 {
        d
    } else {
        patched_decorations(layered_decorations(d, ps.drop_last()), ps.last().decorations)
    }
}

pub open spec fn layered_theme(t: Theme, ps: Seq<ConfigPatch>) -> Theme
    decreases ps.len(),
{
    if ps.len() == 0 {
        t
    } else {
        patched_theme(layered_theme(t, ps.drop_last()), ps.last().theme)
    }
}

pub open spec fn layered_capabilities(c: Capabilities, ps: Seq<ConfigPatch>) -> Capabilities
    decreases ps.len(),
{
    if ps.len() == 0 {
        c
    } else {
        patched_capabilities(layered_capabilities(c, ps.drop_last()), ps.last().capabilities)
    }
}

/// The rules of `base` followed by those of each layer, in layer order.
pub open spec fn layered_rules(base: Seq<WindowRule>, ps: Seq<ConfigPatch>) -> Seq<WindowRule>
    decreases ps.len(),
{
    if ps.len() == 0 {
        base
    } else {
        layered_rules(base, ps.drop_last()) + ps.last().window_rules@
    }
}

/// The first refused layer: one that could not be read or decoded, or one whose
/// content is invalid.
pub open spec fn layers_error(layers: Seq<ConfigLayer>) -> Option<Seq<char>>
    decreases layers.len(),
{
    if layers.len() == 0 {
        None
    } else {
        let first = match layers[0].patch {
            Err(e) => Some(e@),
            Ok(p) => patch_error(layers[0].source@, p),
        };
        match first {
            Some(m) => Some(m),
            None => layers_error(layers.drop_first()),
        }
    }
}

/// The decoded patches of the layers.
pub open spec fn patches_of(layers: Seq<ConfigLayer>) -> Seq<ConfigPatch> {
    layers.map_values(|l: ConfigLayer| l.patch->Ok_0)
}

/// Why resolution fails, in the order the layers are taken up: the profile name,
/// the defaults, the selected profile, the drop-in directory, each drop-in, and
/// finally the effective configuration.
pub open spec fn resolution_error(
    profile: Seq<char>,
    defaults: DefaultsLayer,
    selected: Result<ConfigLayer, ConfigError>,
    drop_ins: Result<Vec<ConfigLayer>, ConfigError>,
) -> Option<Seq<char>> {
    if !valid_profile_name(profile) {
        Some(profile_name_message(profile))
    } else {
        match defaults.config {
            Err(e) => Some(e@),
            Ok(base) => match config_error(base) {
                Some(m) => Some(m),
                None => match selected {
                    Err(e) => Some(e@),
                    Ok(layer) => match layers_error(seq![layer]) {
                        Some(m) => Some(m),
                        None => match drop_ins {
                            Err(e) => Some(e@),
                            Ok(more) => match layers_error(more@) {
                                Some(m) => Some(m),
                                None => {
                                    let ps = patches_of(seq![layer] + more@);
                                    config_error_of(
                                        base.schema_version,
                                        layered_layout(base.layout, ps),
                                        layered_decorations(base.decorations, ps),
                                        layered_rules(base.window_rules@, ps),
                                    )
                                },
                            },
                        },
                    },
                },
            },
        }
    }
}

proof fn lemma_layers_ok(layers: Seq<ConfigLayer>)
    requires
        layers_error(layers) is None,
    ensures
        forall|j: int| 0 <= j < layers.len() ==> #[trigger] layers[j].patch is Ok,
    decreases layers.len(),
{
    if layers.len() > 0 {
        lemma_layers_ok(layers.drop_first());
        assert forall|j: int| 0 <= j < layers.len() implies #[trigger] layers[j].patch is Ok by {
            if j > 0 {
                assert(layers[j] == layers.drop_first()[j - 1]);
            }
        }
    }
}

fn check_layers(layers: &Vec<ConfigLayer>) -> (r: Result<(), ConfigError>)
    ensures
        match layers_error(layers@) {
            None => r is Ok,
            Some(m) => r matches Err(e) && e@ == m,
        },
{
    let ghost all = layers@;
    let mut i: usize = 0;
    assert(all.skip(0) =~= all);
    while i < layers.len()
        invariant
            all == layers@,
            i <= all.len(),
            layers_error(all) == layers_error(all.skip(i as int)),
        decreases all.len() - i,
    {
        assert(all.skip(i as int)[0] == all[i as int]);
        assert(all.skip(i as int).drop_first() =~= all.skip(i + 1));
        match &layers[i].patch {
            Err(e) => {
                return Err(ConfigError::new(e.message()));
            },
            Ok(p) => {
                check_patch(layers[i].source.as_str(), p)?;
            },
        }
        i += 1;
    }
    assert(all.skip(i as int) =~= Seq::<ConfigLayer>::empty());
    Ok(())
}

/// Resolve built-in defaults, one selected profile, then the drop-ins in the order given
/// (lexical, from `select_drop_ins`): every layer is checked, scalars are
/// last-layer-wins, window rules append, and the effective configuration is validated.
pub fn resolve_layers(
    profile: &str,
    defaults: DefaultsLayer,
    selected: Result<ConfigLayer, ConfigError>,
    drop_ins: Result<Vec<ConfigLayer>, ConfigError>,
) -> (r: Result<ResolvedConfig, ConfigError>)
    ensures
        match resolution_error(profile@, defaults, selected, drop_ins) {
            Some(m) => r matches Err(e) && e@ == m,
            None => r matches Ok(resolved) && {
                let base = defaults.config->Ok_0;
                let layers = seq![selected->Ok_0] + drop_ins->Ok_0@;
                let ps = patches_of(layers);
                &&& resolved.config.schema_version == base.schema_version
                &&& resolved.config.layout == layered_layout(base.layout, ps)
                &&& resolved.config.decorations == layered_decorations(base.decorations, ps)
                &&& resolved.config.theme == layered_theme(base.theme, ps)
                &&& resolved.config.capabilities == layered_capabilities(base.capabilities, ps)
                &&& resolved.config.window_rules@ == layered_rules(base.window_rules@, ps)
                &&& views(resolved.sources@) == seq![defaults.source@] + layers.map_values(
                    |l: ConfigLayer| l.source@,
                )
                &&& config_error(resolved.config) is None
            },
        },
{
    validate_profile_name(profile)?;
    let mut config = match defaults.config {
        Err(e) => {
            return Err(e);
        },
        Ok(c) => c,
    };
    validate_config(&config)?;
    let layer = match selected {
        Err(e) => {
            return Err(e);
        },
        Ok(l) => l,
    };
    let mut first: Vec<ConfigLayer> = Vec::new();
    first.push(layer);
    check_layers(&first)?;
    let mut more = match drop_ins {
        Err(e) => {
            return Err(e);
        },
        Ok(m) => m,
    };
    check_layers(&more)?;
    let ghost base = config;
    let ghost layers = first@ + more@;
    let ghost ps = patches_of(layers);
    proof {
        lemma_layers_ok(first@);
        lemma_layers_ok(more@);
        assert forall|j: int| 0 <= j < layers.len() implies #[trigger] layers[j].patch is Ok by {
            if j > 0 {
                assert(layers[j] == more@[j - 1]);
            } else {
                assert(layers[j] == first@[0]);
            }
        }
    }
    let mut sources: Vec<String> = Vec::new();
    sources.push(defaults.source);
    first.append(&mut more);
    let mut done: usize = 0;
    assert(first@ =~= layers);
    assert(first@.len() == first.len());
    assert(ps.take(0) =~= Seq::<ConfigPatch>::empty());
    while first.len() > 0
        invariant
            done + first@.len() == layers.len(),
            layers.len() <= usize::MAX,
            ps.len() == layers.len(),
            ps == patches_of(layers),
            first@ == layers.skip(done as int),
            forall|j: int| 0 <= j < layers.len() ==> #[trigger] layers[j].patch is Ok,
            config.schema_version == base.schema_version,
            config.layout == layered_layout(base.layout, ps.take(done as int)),
            config.decorations == layered_decorations(base.decorations, ps.take(done as int)),
            config.theme == layered_theme(base.theme, ps.take(done as int)),
            config.capabilities == layered_capabilities(base.capabilities, ps.take(done as int)),
            config.window_rules@ == layered_rules(base.window_rules@, ps.take(done as int)),
            views(sources@) == seq![defaults.source@] + layers.take(done as int).map_values(
                |l: ConfigLayer| l.source@,
            ),
        decreases first@.len(),
    {
        let layer = first.remove(0);
        assert(layer == layers[done as int]);
        assert(ps.take(done + 1).drop_last() =~= ps.take(done as int));
        assert(ps.take(done + 1).last() == ps[done as int]);
        let ghost before = sources@;
        sources.push(layer.source);
        assert(layers.take(done + 1).map_values(|l: ConfigLayer| l.source@) =~= layers.take(
            done as int,
        ).map_values(|l: ConfigLayer| l.source@).push(layers[done as int].source@));
        assert(views(sources@) =~= views(before).push(layers[done as int].source@));
        match layer.patch {
            Ok(p) => {
                apply_patch(&mut config, p);
            },
            Err(_) => {},
        }
        assert(first@ =~= layers.skip(done + 1));
        done += 1;
    }
    assert(ps.take(done as int) =~= ps);
    assert(layers.take(done as int) =~= layers);
    validate_config(&config)?;
    Ok(ResolvedConfig { config, sources })
}

/// Return one explicit optional capability from an already resolved config.
pub fn capability_enabled(resolved: &ResolvedConfig, capability: &str) -> (r: Result<
    bool,
    ConfigError,
>)
    ensures
        capability@ == "wine"@ ==> r == Ok::<bool, ConfigError>(resolved.config.capabilities.wine),
        capability@ != "wine"@ ==> (r matches Err(e) && e@ == "unknown capability "@
            + debug_quoted(capability@)),
{
    if capability.to_owned() == "wine".to_owned() {
        Ok(resolved.config.capabilities.wine)
    } else {
        let quoted = quote_debug(capability);
        Err(ConfigError::new(concat("unknown capability ", quoted.as_str())))
    }
}

} // verus!

verus! {

/// Scalars are last-layer-wins: the layout mode comes from the last layer that sets
/// one, whatever earlier layers said.
pub proof fn lemma_last_mode_wins(l: Layout, ps: Seq<ConfigPatch>, k: int)
    requires
        0 <= k < ps.len(),
        ps[k].layout matches Some(lp) && lp.mode is Some,
        forall|j: int|
            k < j < ps.len() ==> (#[trigger] ps[j].layout matches Some(lp) ==> lp.mode is None),
    ensures
        layered_layout(l, ps).mode == ps[k].layout->0.mode->0,
    decreases ps.len(),
{
    if k < ps.len() - 1 {
        assert forall|j: int| k < j < ps.drop_last().len() implies (
        #[trigger] ps.drop_last()[j].layout matches Some(lp) ==> lp.mode is None) by {
            assert(ps.drop_last()[j] == ps[j]);
        }
        assert(ps.drop_last()[k] == ps[k]);
        lemma_last_mode_wins(l, ps.drop_last(), k);
        assert(ps.last() == ps[ps.len() - 1]);
    }
}

/// A layer that names no layout setting leaves the layout as it was.
pub proof fn lemma_silent_layer_keeps_layout(l: Layout, ps: Seq<ConfigPatch>, p: ConfigPatch)
    requires
        p.layout is None,
    ensures
        layered_layout(l, ps.push(p)) == layered_layout(l, ps),
{
    assert(ps.push(p).drop_last() =~= ps);
}

/// Window rules keep layer order: layering `a` then `b` puts every rule of `a`
/// before every rule of `b`.
pub proof fn lemma_rules_append_in_layer_order(
    base: Seq<WindowRule>,
    a: Seq<ConfigPatch>,
    b: Seq<ConfigPatch>,
)
    ensures
        layered_rules(base, a + b) == layered_rules(layered_rules(base, a), b),
    decreases b.len(),
{
    if b.len() == 0 {
        assert(a + b =~= a);
    } else {
        assert((a + b).drop_last() =~= a + b.drop_last());
        assert((a + b).last() == b.last());
        lemma_rules_append_in_layer_order(base, a, b.drop_last());
    }
}

} // verus!

verus! {

/// `rel` under the directory `dir`, as `Path::join` puts a relative path: with one
/// separator between them unless `dir` is empty or already ends in one.
pub open spec fn path_join(dir: Seq<char>, rel: Seq<char>) -> Seq<char> {
    if dir.len() > 0 && dir.last() != '/' {
        dir + "/"@ + rel
    } else {
        dir + rel
    }
}

/// Where the layout daemon publishes its state: the explicit override when one is
/// set, else `pelagian-layoutd/status.json` under the runtime directory, else nowhere.
pub open spec fn state_path(
    state_override: Option<Seq<char>>,
    runtime_dir: Option<Seq<char>>,
) -> Option<Seq<char>> {
    match state_override {
        Some(p) => Some(p),
        None => match runtime_dir {
            Some(d) => Some(path_join(d, "pelagian-layoutd/status.json"@)),
            None => None,
        },
    }
}

/// `rel` under the directory `dir`, for a relative `rel`.
pub fn join_path(dir: &str, rel: &str) -> (r: String)
    ensures
        r@ == path_join(dir@, rel@),
{
    let cs = chars_of(dir);
    if cs.len() > 0 && cs[cs.len() - 1] != '/' {
        concat3(dir, "/", rel)
    } else {
        concat(dir, rel)
    }
}

/// The layout daemon's state path, from the `PELAGIAN_LAYOUTD_STATE` override and the
/// `XDG_RUNTIME_DIR` directory the caller read from the environment.
pub fn layoutd_state_path(state_override: Option<String>, runtime_dir: Option<String>) -> (r:
    Option<String>)
    ensures
        text_of(r) == state_path(text_of(state_override), text_of(runtime_dir)),
{
    match state_override {
        Some(p) => Some(p),
        None => match runtime_dir {
            None => None,
            Some(d) => Some(join_path(d.as_str(), "pelagian-layoutd/status.json")),
        },
    }
}

/// The file of the selected profile: the local one under `etc` when it exists, else the
/// built-in one under `share`.
pub open spec fn profile_file(
    profile: Seq<char>,
    etc: Seq<char>,
    share: Seq<char>,
    local_exists: bool,
    builtin_exists: bool,
) -> Option<Seq<char>> {
    if local_exists {
        Some(path_join(path_join(etc, "profiles"@), profile + ".toml"@))
    } else if builtin_exists {
        Some(path_join(path_join(share, "profiles"@), profile + ".toml"@))
    } else {
        None
    }
}

pub open spec fn missing_profile_message(profile: Seq<char>, etc: Seq<char>, share: Seq<char>) -> Seq<
    char,
> {
    "selected profile "@ + debug_quoted(profile) + " was not found in "@ + path_join(
        etc,
        "profiles"@,
    ) + " or "@ + path_join(share, "profiles"@)
}

/// The path of a profile's file under a configuration root.
pub fn profile_path(root: &str, profile: &str) -> (r: String)
    ensures
        r@ == path_join(path_join(root@, "profiles"@), profile@ + ".toml"@),
{
    let dir = join_path(root, "profiles");
    let name = concat(profile, ".toml");
    join_path(dir.as_str(), name.as_str())
}

/// Chooses the selected profile's file, given whether the local and the built-in one
/// exist; a profile found in neither place is an error naming both directories.
pub fn select_profile(
    profile: &str,
    roots: &ConfigRoots,
    local_exists: bool,
    builtin_exists: bool,
) -> (r: Result<String, ConfigError>)
    ensures
        match profile_file(profile@, roots.etc@, roots.share@, local_exists, builtin_exists) {
            Some(path) => r matches Ok(p) && p@ == path,
            None => r matches Err(e) && e@ == missing_profile_message(
                profile@,
                roots.etc@,
                roots.share@,
            ),
        },
{
    if local_exists {
        Ok(profile_path(roots.etc.as_str(), profile))
    } else if builtin_exists {
        Ok(profile_path(roots.share.as_str(), profile))
    } else {
        let quoted = quote_debug(profile);
        let local = join_path(roots.etc.as_str(), "profiles");
        let builtin = join_path(roots.share.as_str(), "profiles");
        let head = concat3("selected profile ", quoted.as_str(), " was not found in ");
        let tail = concat3(local.as_str(), " or ", builtin.as_str());
        Err(ConfigError::new(concat(head.as_str(), tail.as_str())))
    }
}

} // verus!
