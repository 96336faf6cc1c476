//! The widget manifest: the saved configuration of every installed widget,
//! kept in step with the widget folders found on disk.
//!
//! Setting values are held as their JSON text and window geometry as the
//! bit patterns of the `f64` values the application stores.

use vstd::prelude::*;
use crate::text::{replace_char, replace_char_in};

verus! {

/// The bit pattern of `40.0`, the position a newly found widget opens at.
pub const DEFAULT_POSITION_BITS: u64 = 0x4044_0000_0000_0000;

/// Settings as `(key, JSON value)` pairs.
pub type SettingsView = Seq<(Seq<char>, Seq<char>)>;

/// One saved setting value.
#[derive(Debug, Clone, PartialEq, Eq)]
pub struct SettingValue {
    pub key: String,
    pub value_json: String,
}

impl View for SettingValue {
    type V = (Seq<char>, Seq<char>);

    open spec fn view(&self) -> (Seq<char>, Seq<char>) {
        (self.key@, self.value_json@)
    }
}

/// The view of a list of setting values.
pub open spec fn settings_view(v: Seq<SettingValue>) -> SettingsView {
    v.map_values(|s: SettingValue| s@)
}

/// The saved configuration of one widget instance.
#[derive(Debug, Clone, PartialEq, Eq)]
pub struct WidgetConfig {
    /// The widget's folder below the widgets directory, with `/` separators.
    pub id: String,
    /// The label of the widget's window.
    pub window_label: String,
    pub enabled: bool,
    pub width_bits: u64,
    pub height_bits: u64,
    pub x_bits: u64,
    pub y_bits: u64,
    pub interactive: bool,
    pub settings: Vec<SettingValue>,
}

/// What a widget configuration holds.
#[verifier::ext_equal]
pub struct ConfigView {
    pub id: Seq<char>,
    pub window_label: Seq<char>,
    pub enabled: bool,
    pub width_bits: u64,
    pub height_bits: u64,
    pub x_bits: u64,
    pub y_bits: u64,
    pub interactive: bool,
    pub settings: SettingsView,
}

impl View for WidgetConfig {
    type V = ConfigView;

    open spec fn view(&self) -> ConfigView {
        ConfigView {
            id: self.id@,
            window_label: self.window_label@,
            enabled: self.enabled,
            width_bits: self.width_bits,
            height_bits: self.height_bits,
            x_bits: self.x_bits,
            y_bits: self.y_bits,
            interactive: self.interactive,
            settings: settings_view(self.settings@),
        }
    }
}

/// One choice offered by a setting.
#[derive(Debug, Clone, PartialEq, Eq)]
pub struct WidgetSettingOption {
    pub label: String,
    pub value: String,
}

/// A setting that a widget declares in its `widget.json`.
#[derive(Debug, Clone, PartialEq, Eq)]
pub struct WidgetSettingDefinition {
    pub key: String,
    pub label: String,
    pub setting_type: String,
    /// The default value, as JSON text.
    pub default_json: String,
    pub description: Option<String>,
    pub placeholder: Option<String>,
    pub min_bits: Option<u64>,
    pub max_bits: Option<u64>,
    pub step_bits: Option<u64>,
    pub options: Option<Vec<WidgetSettingOption>>,
}

/// The `(key, default)` pairs of a list of setting definitions.
pub open spec fn defaults_view(defs: Seq<WidgetSettingDefinition>) -> SettingsView {
    defs.map_values(|d: WidgetSettingDefinition| (d.key@, d.default_json@))
}

/// The description of a widget, read from its `widget.json`.
#[derive(Debug, Clone, PartialEq, Eq)]
pub struct WidgetInfo {
    pub name: String,
    pub version: String,
    pub author: String,
    pub description: String,
    pub default_width_bits: u64,
    pub default_height_bits: u64,
    pub interactive: bool,
    pub settings: Vec<WidgetSettingDefinition>,
}

/// The saved configuration of all widgets.
#[derive(Debug, Clone, PartialEq, Eq)]
pub struct Manifest {
    pub widgets: Vec<WidgetConfig>,
}

impl View for Manifest {
    type V = Seq<ConfigView>;

    open spec fn view(&self) -> Seq<ConfigView> {
        self.widgets@.map_values(|w: WidgetConfig| w@)
    }
}

/// A widget folder found below the widgets directory, with the description it holds.
#[derive(Debug, Clone, PartialEq, Eq)]
pub struct FoundWidget {
    /// The folder's path relative to the widgets directory, as the platform writes it.
    pub relative_path: String,
    pub info: WidgetInfo,
}

/// What the synchronisation reads of a found widget folder.
#[verifier::ext_equal]
pub struct FoundView {
    pub relative_path: Seq<char>,
    pub default_width_bits: u64,
    pub default_height_bits: u64,
    pub interactive: bool,
    pub defaults: SettingsView,
}

impl View for FoundWidget {
    type V = FoundView;

    open spec fn view(&self) -> FoundView {
        FoundView {
            relative_path: self.relative_path@,
            default_width_bits: self.info.default_width_bits,
            default_height_bits: self.info.default_height_bits,
            interactive: self.info.interactive,
            defaults: defaults_view(self.info.settings@),
        }
    }
}

/// The id of a widget found at `relative_path`: the path with `/` separators.
pub open spec fn widget_id_of(relative_path: Seq<char>) -> Seq<char> {
    replace_char(relative_path, '\\', '/')
}

/// The index of the first setting with key `k`, or the length when there is none.
pub open spec fn key_index(s: SettingsView, k: Seq<char>) -> int
    decreases s.len(),
{
    if s.len() == 0 {
        0
    } else if s[0].0 == k {
        0
    } else {
        1 + key_index(s.drop_first(), k)
    }
}

/// Whether some setting has key `k`.
pub open spec fn has_key(s: SettingsView, k: Seq<char>) -> bool {
    exists|i: int| 0 <= i < s.len() && #[trigger] s[i].0 == k
}

/// `s` with every default whose key is missing added, in order; keys that
/// are present keep their value (`entry(..).or_insert_with(..)`).
pub open spec fn with_defaults(s: SettingsView, defaults: SettingsView) -> SettingsView
    decreases defaults.len(),
{
    if defaults.len() == 0 {
        s
    } else {
        let r = with_defaults(s, defaults.drop_last());
        if has_key(r, defaults.last().0) {
            r
        } else {
            r.push(defaults.last())
        }
    }
}

/// The settings made of `defaults`, a later value for a key replacing an
/// earlier one (collecting into a map).
pub open spec fn from_defaults(defaults: SettingsView) -> SettingsView
    decreases defaults.len(),
{
    if defaults.len() == 0 {
        defaults
    } else {
        let r = from_defaults(defaults.drop_last());
        let d = defaults.last();
        if has_key(r, d.0) {
            r.update(key_index(r, d.0), d)
        } else {
            r.push(d)
        }
    }
}

/// The index of the first widget with id `id`, or the length when there is none.
pub open spec fn id_index(ws: Seq<ConfigView>, id: Seq<char>) -> int
    decreases ws.len(),
{
    if ws.len() == 0 {
        0
    } else if ws[0].id == id {
        0
    } else {
        1 + id_index(ws.drop_first(), id)
    }
}

/// The configuration given to a widget found for the first time.
pub open spec fn new_config(id: Seq<char>, f: FoundView) -> ConfigView {
    ConfigView {
        id: id,
        window_label: id,
        enabled: true,
        width_bits: f.default_width_bits,
        height_bits: f.default_height_bits,
        x_bits: DEFAULT_POSITION_BITS,
        y_bits: DEFAULT_POSITION_BITS,
        interactive: f.interactive,
        settings: from_defaults(f.defaults),
    }
}

/// The widgets after taking one found folder into account: the first widget
/// with its id gets the missing setting defaults, or, when there is none, a
/// new widget is appended.
pub open spec fn merge_found(ws: Seq<ConfigView>, f: FoundView) -> Seq<ConfigView> {
    let id = widget_id_of(f.relative_path);
    let i = id_index(ws, id);
    if i < ws.len() {
        ws.update(i, ConfigView { settings: with_defaults(ws[i].settings, f.defaults), ..ws[i] })
    } else {
        ws.push(new_config(id, f))
    }
}

/// The widgets after taking every found folder into account, in order.
pub open spec fn merge_all(ws: Seq<ConfigView>, found: Seq<FoundView>) -> Seq<ConfigView>
    decreases found.len(),
{
    if found.len() == 0 {
        ws
    } else {
        merge_found(merge_all(ws, found.drop_last()), found.last())
    }
}

/// The ids of the found folders.
pub open spec fn found_ids(found: Seq<FoundView>) -> Seq<Seq<char>> {
    found.map_values(|f: FoundView| widget_id_of(f.relative_path))
}

/// Whether a widget's folder is among `ids`.
pub open spec fn is_found(ids: Seq<Seq<char>>) -> spec_fn(ConfigView) -> bool {
    |w: ConfigView| ids.contains(w.id)
}

/// The widgets whose folder was found, in order.
pub open spec fn keep_found(ws: Seq<ConfigView>, ids: Seq<Seq<char>>) -> Seq<ConfigView> {
    ws.filter(is_found(ids))
}

/// The manifest's widgets once brought in step with the found folders.
pub open spec fn synced_widgets(ws: Seq<ConfigView>, found: Seq<FoundView>) -> Seq<ConfigView> {
    keep_found(merge_all(ws, found), found_ids(found))
}

/// `key_index` lies within `s`, no earlier setting has key `k`, and it
/// points at one with key `k` unless it is the length.
pub proof fn lemma_key_index(s: SettingsView, k: Seq<char>)
    ensures
        0 <= key_index(s, k) <= s.len(),
        forall|j: int| 0 <= j < key_index(s, k) ==> s[j].0 != k,
        key_index(s, k) < s.len() ==> s[key_index(s, k)].0 == k,
        has_key(s, k) <==> key_index(s, k) < s.len(),
    decreases s.len(),
{
    if s.len() > 0 && s[0].0 != k {
        lemma_key_index(s.drop_first(), k);
        assert forall|j: int| 0 <= j < key_index(s, k) implies s[j].0 != k by {
            if j > 0 {
                assert(s[j] == s.drop_first()[j - 1]);
            }
        }
        if has_key(s, k) {
            let j = choose|j: int| 0 <= j < s.len() && #[trigger] s[j].0 == k;
            assert(s.drop_first()[j - 1].0 == k);
        }
        if has_key(s.drop_first(), k) {
            let j = choose|j: int| 0 <= j < s.drop_first().len() && #[trigger] s.drop_first()[j].0 == k;
            assert(s[j + 1].0 == k);
        }
    } else if s.len() > 0 {
        assert(s[0].0 == k);
    }
}

/// `id_index` lies within `ws`, no earlier widget has id `id`, and it
/// points at one with id `id` unless it is the length.
pub proof fn lemma_id_index(ws: Seq<ConfigView>, id: Seq<char>)
    ensures
        0 <= id_index(ws, id) <= ws.len(),
        forall|j: int| 0 <= j < id_index(ws, id) ==> ws[j].id != id,
        id_index(ws, id) < ws.len() ==> ws[id_index(ws, id)].id == id,
    decreases ws.len(),
{
    if ws.len() > 0 && ws[0].id != id {
        lemma_id_index(ws.drop_first(), id);
        assert forall|j: int| 0 <= j < id_index(ws, id) implies ws[j].id != id by {
            if j > 0 {
                assert(ws[j] == ws.drop_first()[j - 1]);
            }
        }
    }
}

/// `id_index` is the unique position described by `lemma_id_index`.
pub proof fn lemma_id_index_unique(ws: Seq<ConfigView>, id: Seq<char>, i: int)
    requires
        0 <= i <= ws.len(),
        forall|j: int| 0 <= j < i ==> ws[j].id != id,
        i == ws.len() || ws[i].id == id,
    ensures
        id_index(ws, id) == i,
    decreases ws.len(),
{
    if ws.len() > 0 && ws[0].id != id {
        assert forall|j: int| 0 <= j < i - 1 implies ws.drop_first()[j].id != id by {
            assert(ws[j + 1].id != id);
        }
        lemma_id_index_unique(ws.drop_first(), id, i - 1);
    }
}

/// `key_index` is the unique position described by `lemma_key_index`.
pub proof fn lemma_key_index_unique(s: SettingsView, k: Seq<char>, i: int)
    requires
        0 <= i <= s.len(),
        forall|j: int| 0 <= j < i ==> s[j].0 != k,
        i == s.len() || s[i].0 == k,
    ensures
        key_index(s, k) == i,
    decreases s.len(),
{
    if s.len() > 0 && s[0].0 != k {
        assert forall|j: int| 0 <= j < i - 1 implies s.drop_first()[j].0 != k by {
            assert(s[j + 1].0 != k);
        }
        lemma_key_index_unique(s.drop_first(), k, i - 1);
    }
}

/// No key has two settings (the settings of a widget form a map).
pub open spec fn distinct_keys(s: SettingsView) -> bool {
    forall|i: int, j: int| 0 <= i < j < s.len() ==> s[i].0 != s[j].0
}

/// The settings of every widget of `ws` have distinct keys.
pub open spec fn all_keys_distinct(ws: Seq<ConfigView>) -> bool {
    forall|i: int| 0 <= i < ws.len() ==> distinct_keys(#[trigger] ws[i].settings)
}

/// Adding a setting whose key is absent keeps keys distinct.
proof fn lemma_push_new_key(s: SettingsView, x: (Seq<char>, Seq<char>))
    requires
        distinct_keys(s),
        !has_key(s, x.0),
    ensures
        distinct_keys(s.push(x)),
{
    assert forall|i: int, j: int| 0 <= i < j < s.push(x).len() implies s.push(x)[i].0 != s.push(x)[j].0 by {
        if j == s.len() {
            assert(s[i].0 == s.push(x)[i].0);
        } else {
            assert(s.push(x)[i] == s[i] && s.push(x)[j] == s[j]);
        }
    }
}

/// Adding defaults keeps the keys of the settings distinct.
pub proof fn lemma_with_defaults_distinct(s: SettingsView, d: SettingsView)
    requires
        distinct_keys(s),
    ensures
        distinct_keys(with_defaults(s, d)),
    decreases d.len(),
{
    if d.len() > 0 {
        lemma_with_defaults_distinct(s, d.drop_last());
        let r = with_defaults(s, d.drop_last());
        if !has_key(r, d.last().0) {
            lemma_push_new_key(r, d.last());
        }
    }
}

/// The settings made of a list of defaults have distinct keys.
pub proof fn lemma_from_defaults_distinct(d: SettingsView)
    ensures
        distinct_keys(from_defaults(d)),
    decreases d.len(),
{
    if d.len() > 0 {
        lemma_from_defaults_distinct(d.drop_last());
        let r = from_defaults(d.drop_last());
        let x = d.last();
        lemma_key_index(r, x.0);
        if has_key(r, x.0) {
            let k = key_index(r, x.0);
            let out = r.update(k, x);
            assert forall|i: int, j: int| 0 <= i < j < out.len() implies out[i].0 != out[j].0 by {
                assert(out[i].0 == r[i].0 && out[j].0 == r[j].0);
            }
        } else {
            lemma_push_new_key(r, x);
        }
    }
}

/// Taking found folders into account keeps the keys of every widget's
/// settings distinct.
pub proof fn lemma_merge_all_distinct(ws: Seq<ConfigView>, found: Seq<FoundView>)
    requires
        all_keys_distinct(ws),
    ensures
        all_keys_distinct(merge_all(ws, found)),
    decreases found.len(),
{
    if found.len() > 0 {
        lemma_merge_all_distinct(ws, found.drop_last());
        let w = merge_all(ws, found.drop_last());
        let f = found.last();
        let id = widget_id_of(f.relative_path);
        let i = id_index(w, id);
        let out = merge_all(ws, found);
        lemma_id_index(w, id);
        if i < w.len() {
            lemma_with_defaults_distinct(w[i].settings, f.defaults);
            assert forall|k: int| 0 <= k < out.len() implies distinct_keys(#[trigger] out[k].settings) by {
                if k != i {
                    assert(out[k] == w[k]);
                }
            }
        } else {
            lemma_from_defaults_distinct(f.defaults);
            assert forall|k: int| 0 <= k < out.len() implies distinct_keys(#[trigger] out[k].settings) by {
                if k < w.len() {
                    assert(out[k] == w[k]);
                }
            }
        }
    }
}

/// Synchronising keeps the keys of every widget's settings distinct.
pub proof fn lemma_sync_distinct(ws: Seq<ConfigView>, found: Seq<FoundView>)
    requires
        all_keys_distinct(ws),
    ensures
        all_keys_distinct(synced_widgets(ws, found)),
{
    broadcast use vstd::seq_lib::group_filter_ensures;
    let m = merge_all(ws, found);
    let p = is_found(found_ids(found));
    lemma_merge_all_distinct(ws, found);
    let r = synced_widgets(ws, found);
    assert forall|k: int| 0 <= k < r.len() implies distinct_keys(#[trigger] r[k].settings) by {
        assert(r.contains(r[k]));
        m.lemma_filter_contains_rev(p, r[k]);
        let q = choose|q: int| 0 <= q < m.len() && m[q] == r[k];
        assert(distinct_keys(m[q].settings));
    }
}

impl SettingValue {
    /// A copy of this setting.
    pub fn copy(&self) -> (r: SettingValue)
        ensures
            r@ == self@,
    {
        SettingValue { key: self.key.clone(), value_json: self.value_json.clone() }
    }
}

/// The position of the first setting with key `k`, or the length when there is none.
pub fn key_position(s: &Vec<SettingValue>, k: &String) -> (r: usize)
    ensures
        r == key_index(settings_view(s@), k@),
{
    let ghost sv = settings_view(s@);
    let mut i: usize = 0;
    while i < s.len() && s[i].key != *k
        invariant
            i <= s.len(),
            sv == settings_view(s@),
            forall|j: int| 0 <= j < i ==> sv[j].0 != k@,
        decreases s.len() - i,
    {
        i = i + 1;
    }
    proof {
        lemma_key_index_unique(sv, k@, i as int);
    }
    i
}

/// The position of the first widget with id `id`, or the length when there is none.
pub fn id_position(ws: &Vec<WidgetConfig>, id: &String) -> (r: usize)
    ensures
        r == id_index(ws@.map_values(|w: WidgetConfig| w@), id@),
{
    let ghost wv = ws@.map_values(|w: WidgetConfig| w@);
    let mut i: usize = 0;
    while i < ws.len() && ws[i].id != *id
        invariant
            i <= ws.len(),
            wv == ws@.map_values(|w: WidgetConfig| w@),
            forall|j: int| 0 <= j < i ==> wv[j].id != id@,
        decreases ws.len() - i,
    {
        i = i + 1;
    }
    proof {
        lemma_id_index_unique(wv, id@, i as int);
    }
    i
}

/// Adds the default of every definition whose key is not saved yet.
pub fn add_missing_defaults(settings: &mut Vec<SettingValue>, defs: &Vec<WidgetSettingDefinition>)
    ensures
        settings_view(final(settings)@) == with_defaults(
            settings_view(old(settings)@),
            defaults_view(defs@),
        ),
        distinct_keys(settings_view(old(settings)@)) ==> distinct_keys(settings_view(final(settings)@)),
{
    proof {
        if distinct_keys(settings_view(settings@)) {
            lemma_with_defaults_distinct(settings_view(settings@), defaults_view(defs@));
        }
    }
    let ghost start = settings_view(settings@);
    let mut i: usize = 0;
    while i < defs.len()
        invariant
            i <= defs.len(),
            settings_view(settings@) == with_defaults(start, defaults_view(defs@).take(i as int)),
        decreases defs.len() - i,
    {
        let ghost dv = defaults_view(defs@);
        assert(dv.take(i + 1).drop_last() == dv.take(i as int));
        let pos = key_position(settings, &defs[i].key);
        proof {
            lemma_key_index(settings_view(settings@), defs@[i as int].key@);
        }
        if pos == settings.len() {
            let ghost before = settings@;
            settings.push(SettingValue { key: defs[i].key.clone(), value_json: defs[i].default_json.clone() });
            assert(settings_view(settings@) == settings_view(before).push(dv[i as int]));
        }
        i = i + 1;
    }
    assert(defaults_view(defs@).take(defs.len() as int) == defaults_view(defs@));
}

/// The settings of a newly found widget: every definition's default, a later
/// definition of a key replacing an earlier one.
pub fn settings_from_definitions(defs: &Vec<WidgetSettingDefinition>) -> (r: Vec<SettingValue>)
    ensures
        settings_view(r@) == from_defaults(defaults_view(defs@)),
        distinct_keys(settings_view(r@)),
{
    proof {
        lemma_from_defaults_distinct(defaults_view(defs@));
    }
    let mut r: Vec<SettingValue> = Vec::new();
    let mut i: usize = 0;
    assert(defaults_view(defs@).take(0) == Seq::<(Seq<char>, Seq<char>)>::empty());
    while i < defs.len()
        invariant
            i <= defs.len(),
            settings_view(r@) == from_defaults(defaults_view(defs@).take(i as int)),
        decreases defs.len() - i,
    {
        let ghost dv = defaults_view(defs@);
        assert(dv.take(i + 1).drop_last() == dv.take(i as int));
        let pos = key_position(&r, &defs[i].key);
        proof {
            lemma_key_index(settings_view(r@), defs@[i as int].key@);
        }
        let entry = SettingValue { key: defs[i].key.clone(), value_json: defs[i].default_json.clone() };
        let ghost before = r@;
        if pos == r.len() {
            r.push(entry);
            assert(settings_view(r@) == settings_view(before).push(dv[i as int]));
        } else {
            r.set(pos, entry);
            assert(settings_view(r@) == settings_view(before).update(pos as int, dv[i as int]));
        }
        i = i + 1;
    }
    assert(defaults_view(defs@).take(defs.len() as int) == defaults_view(defs@));
    r
}

/// The id of the widget found at `relative_path`.
pub fn widget_id(relative_path: &str) -> (id: String)
    ensures
        id@ == widget_id_of(relative_path@),
{
    replace_char_in(relative_path, '\\', '/')
}

/// Whether `s` holds a string equal to `x`.
pub fn contains_string(s: &Vec<String>, x: &String) -> (b: bool)
    ensures
        b == s@.map_values(|t: String| t@).contains(x@),
{
    let ghost sv = s@.map_values(|t: String| t@);
    let mut i: usize = 0;
    while i < s.len()
        invariant
            i <= s.len(),
            sv == s@.map_values(|t: String| t@),
            forall|j: int| 0 <= j < i ==> sv[j] != x@,
        decreases s.len() - i,
    {
        if s[i] == *x {
            assert(sv[i as int] == x@);
            return true;
        }
        i = i + 1;
    }
    false
}

/// The configuration given to a widget found for the first time at `id`.
pub fn new_widget_config(id: String, info: &WidgetInfo) -> (w: WidgetConfig)
    ensures
        w@ == new_config(
            id@,
            FoundView {
                relative_path: id@,
                default_width_bits: info.default_width_bits,
                default_height_bits: info.default_height_bits,
                interactive: info.interactive,
                defaults: defaults_view(info.settings@),
            },
        ),
        w.id@ == id@,
        w.window_label@ == id@,
        w.enabled,
        w.width_bits == info.default_width_bits,
        w.height_bits == info.default_height_bits,
        w.x_bits == DEFAULT_POSITION_BITS,
        w.y_bits == DEFAULT_POSITION_BITS,
        w.interactive == info.interactive,
{
    let label = id.clone();
    WidgetConfig {
        id: id,
        window_label: label,
        enabled: true,
        width_bits: info.default_width_bits,
        height_bits: info.default_height_bits,
        x_bits: DEFAULT_POSITION_BITS,
        y_bits: DEFAULT_POSITION_BITS,
        interactive: info.interactive,
        settings: settings_from_definitions(&info.settings),
    }
}

/// Brings the manifest in step with the widget folders found on disk, in
/// the order they were found: a widget seen before gets the defaults of
/// settings it has not saved yet, a new widget is added enabled at the
/// default position with its default settings, and widgets whose folder is
/// gone are dropped.
pub fn sync_widgets(manifest: Manifest, found: &Vec<FoundWidget>) -> (r: Manifest)
    ensures
        r@ == synced_widgets(manifest@, found@.map_values(|f: FoundWidget| f@)),
        all_keys_distinct(manifest@) ==> all_keys_distinct(r@),
{
    proof {
        if all_keys_distinct(manifest@) {
            lemma_sync_distinct(manifest@, found@.map_values(|f: FoundWidget| f@));
        }
    }
    let ghost fv = found@.map_values(|f: FoundWidget| f@);
    let ghost start = manifest@;
    let mut ws = manifest.widgets;
    let mut ids: Vec<String> = Vec::new();
    let mut i: usize = 0;
    while i < found.len()
        invariant
            i <= found.len(),
            fv == found@.map_values(|f: FoundWidget| f@),
            ws@.map_values(|w: WidgetConfig| w@) == merge_all(start, fv.take(i as int)),
            ids@.map_values(|t: String| t@) == found_ids(fv.take(i as int)),
        decreases found.len() - i,
    {
        assert(fv.take(i + 1).drop_last() == fv.take(i as int));
        assert(fv.take(i + 1).last() == fv[i as int]);
        let ghost before = ws@.map_values(|w: WidgetConfig| w@);
        let id = widget_id(&found[i].relative_path);
        let pos = id_position(&ws, &id);
        proof {
            lemma_id_index(before, id@);
        }
        if pos < ws.len() {
            add_missing_defaults(&mut ws[pos].settings, &found[i].info.settings);
            assert(ws@.map_values(|w: WidgetConfig| w@) == merge_found(before, fv[i as int]));
        } else {
            let w = new_widget_config(id.clone(), &found[i].info);
            ws.push(w);
            assert(ws@.map_values(|w: WidgetConfig| w@) == merge_found(before, fv[i as int]));
        }
        let ghost ids_before = ids@;
        ids.push(id);
        assert(ids@.map_values(|t: String| t@) == ids_before.map_values(|t: String| t@).push(
            widget_id_of(fv[i as int].relative_path),
        ));
        assert(found_ids(fv.take(i + 1)) == found_ids(fv.take(i as int)).push(
            widget_id_of(fv[i as int].relative_path),
        ));
        i = i + 1;
    }
    assert(fv.take(found.len() as int) == fv);
    let ghost merged = ws@.map_values(|w: WidgetConfig| w@);
    let ghost keep = is_found(found_ids(fv));
    let mut kept: Vec<WidgetConfig> = Vec::new();
    for w in it: ws.into_iter()
        invariant
            it.seq() == ws@,
            keep == is_found(found_ids(fv)),
            merged == ws@.map_values(|w: WidgetConfig| w@),
            ids@.map_values(|t: String| t@) == found_ids(fv),
            kept@.map_values(|w: WidgetConfig| w@) == merged.take(it.index() as int).filter(keep),
    {
        let ghost k = it.index() as int;
        assert(merged.take(k + 1).drop_last() == merged.take(k));
        assert(merged.take(k + 1).last() == w@);
        proof {
            assert(merged.take(k + 1) == merged.take(k).push(merged[k]));
            merged.take(k).lemma_filter_push(merged[k], keep);
            assert(merged[k] == w@);
            assert(keep(merged[k]) == found_ids(fv).contains(w.id@));
        }
        let ghost kept_before = kept@;
        if contains_string(&ids, &w.id) {
            kept.push(w);
            assert(kept@.map_values(|w: WidgetConfig| w@) == kept_before.map_values(
                |w: WidgetConfig| w@,
            ).push(merged[k]));
        }
    }
    assert(merged.take(merged.len() as int) == merged);
    Manifest { widgets: kept }
}

/// The index of the first widget whose window is `label`, or the length when there is none.
pub open spec fn label_index(ws: Seq<ConfigView>, label: Seq<char>) -> int
    decreases ws.len(),
{
    if ws.len() == 0 {
        0
    } else if ws[0].window_label == label {
        0
    } else {
        1 + label_index(ws.drop_first(), label)
    }
}

/// `label_index` lies within `ws`, no earlier widget has window `label`,
/// and it points at one that has unless it is the length.
pub proof fn lemma_label_index(ws: Seq<ConfigView>, label: Seq<char>)
    ensures
        0 <= label_index(ws, label) <= ws.len(),
        forall|j: int| 0 <= j < label_index(ws, label) ==> ws[j].window_label != label,
        label_index(ws, label) < ws.len() ==> ws[label_index(ws, label)].window_label == label,
    decreases ws.len(),
{
    if ws.len() > 0 && ws[0].window_label != label {
        lemma_label_index(ws.drop_first(), label);
        assert forall|j: int| 0 <= j < label_index(ws, label) implies ws[j].window_label != label by {
            if j > 0 {
                assert(ws[j] == ws.drop_first()[j - 1]);
            }
        }
    }
}

/// `label_index` is the unique position described by `lemma_label_index`.
pub proof fn lemma_label_index_unique(ws: Seq<ConfigView>, label: Seq<char>, i: int)
    requires
        0 <= i <= ws.len(),
        forall|j: int| 0 <= j < i ==> ws[j].window_label != label,
        i == ws.len() || ws[i].window_label == label,
    ensures
        label_index(ws, label) == i,
    decreases ws.len(),
{
    if ws.len() > 0 && ws[0].window_label != label {
        assert forall|j: int| 0 <= j < i - 1 implies ws.drop_first()[j].window_label != label by {
            assert(ws[j + 1].window_label != label);
        }
        lemma_label_index_unique(ws.drop_first(), label, i - 1);
    }
}

/// The message for a window label that no widget has.
pub open spec fn label_not_found(label: Seq<char>) -> Seq<char> {
    "Widget '"@ + label + "' not found"@
}

/// The message for a widget id or window label that the manifest lacks.
pub open spec fn widget_not_found(name: Seq<char>) -> Seq<char> {
    "Widget not found: "@ + name
}

/// The saved settings of the first widget whose window is `label`.
pub open spec fn settings_of(ws: Seq<ConfigView>, label: Seq<char>) -> Result<SettingsView, Seq<char>> {
    let i = label_index(ws, label);
    if i < ws.len() {
        Ok(ws[i].settings)
    } else {
        Err(label_not_found(label))
    }
}

/// The widgets once the first widget whose window is `label` has `settings`.
pub open spec fn with_settings(ws: Seq<ConfigView>, label: Seq<char>, settings: SettingsView) -> Result<
    Seq<ConfigView>,
    Seq<char>,
> {
    let i = label_index(ws, label);
    if i < ws.len() {
        Ok(ws.update(i, ConfigView { settings: settings, ..ws[i] }))
    } else {
        Err(label_not_found(label))
    }
}

/// The widgets once the first widget with the window of `w` is replaced by `w`.
pub open spec fn with_widget(ws: Seq<ConfigView>, w: ConfigView) -> Result<Seq<ConfigView>, Seq<char>> {
    let i = label_index(ws, w.window_label);
    if i < ws.len() {
        Ok(ws.update(i, w))
    } else {
        Err(widget_not_found(w.window_label))
    }
}

/// The first widget with id `id`.
pub open spec fn widget_with_id(ws: Seq<ConfigView>, id: Seq<char>) -> Result<ConfigView, Seq<char>> {
    let i = id_index(ws, id);
    if i < ws.len() {
        Ok(ws[i])
    } else {
        Err(widget_not_found(id))
    }
}

/// The view of a list of settings, or of an error message.
pub open spec fn settings_result_view(r: Result<Vec<SettingValue>, String>) -> Result<
    SettingsView,
    Seq<char>,
> {
    match r {
        Ok(s) => Ok(settings_view(s@)),
        Err(e) => Err(e@),
    }
}

/// The position of the first widget whose window is `label`, or the length when there is none.
pub fn label_position(ws: &Vec<WidgetConfig>, label: &String) -> (r: usize)
    ensures
        r == label_index(ws@.map_values(|w: WidgetConfig| w@), label@),
{
    let ghost wv = ws@.map_values(|w: WidgetConfig| w@);
    let mut i: usize = 0;
    while i < ws.len() && ws[i].window_label != *label
        invariant
            i <= ws.len(),
            wv == ws@.map_values(|w: WidgetConfig| w@),
            forall|j: int| 0 <= j < i ==> wv[j].window_label != label@,
        decreases ws.len() - i,
    {
        i = i + 1;
    }
    proof {
        lemma_label_index_unique(wv, label@, i as int);
    }
    i
}

/// The error for a window label that no widget has.
pub fn label_not_found_error(label: &str) -> (e: String)
    ensures
        e@ == label_not_found(label@),
{
    crate::text::concat3("Widget '", label, "' not found")
}

/// The error for a widget id or window label that the manifest lacks.
pub fn widget_not_found_error(name: &str) -> (e: String)
    ensures
        e@ == widget_not_found(name@),
{
    crate::text::concat2("Widget not found: ", name)
}

/// A copy of the saved settings of the widget whose window is `window_label`.
pub fn widget_settings(manifest: &Manifest, window_label: &str) -> (r: Result<Vec<SettingValue>, String>)
    ensures
        settings_result_view(r) == settings_of(manifest@, window_label@),
{
    let label = window_label.to_string();
    let pos = label_position(&manifest.widgets, &label);
    proof {
        lemma_label_index(manifest@, label@);
    }
    if pos == manifest.widgets.len() {
        return Err(label_not_found_error(window_label));
    }
    let src = &manifest.widgets[pos].settings;
    let mut out: Vec<SettingValue> = Vec::new();
    let mut i: usize = 0;
    while i < src.len()
        invariant
            i <= src.len(),
            settings_view(out@) == settings_view(src@).take(i as int),
        decreases src.len() - i,
    {
        out.push(src[i].copy());
        assert(settings_view(src@).take(i + 1) == settings_view(src@).take(i as int).push(
            src@[i as int]@,
        ));
        i = i + 1;
    }
    assert(settings_view(src@).take(src.len() as int) == settings_view(src@));
    Ok(out)
}

/// Gives the widget whose window is `window_label` the settings `settings`.
pub fn set_widget_settings(manifest: &mut Manifest, window_label: &str, settings: Vec<SettingValue>) -> (r:
    Result<(), String>)
    ensures
        match with_settings(old(manifest)@, window_label@, settings_view(settings@)) {
            Ok(ws) => r is Ok && final(manifest)@ == ws,
            Err(e) => r matches Err(m) && m@ == e && final(manifest)@ == old(manifest)@,
        },
{
    let label = window_label.to_string();
    let pos = label_position(&manifest.widgets, &label);
    proof {
        lemma_label_index(manifest@, label@);
    }
    if pos == manifest.widgets.len() {
        return Err(label_not_found_error(window_label));
    }
    manifest.widgets[pos].settings = settings;
    Ok(())
}

/// Replaces the saved configuration of the widget whose window is the
/// window of `widget` by `widget`.
pub fn replace_widget(manifest: &mut Manifest, widget: WidgetConfig) -> (r: Result<(), String>)
    ensures
        match with_widget(old(manifest)@, widget@) {
            Ok(ws) => r is Ok && final(manifest)@ == ws,
            Err(e) => r matches Err(m) && m@ == e && final(manifest)@ == old(manifest)@,
        },
{
    let pos = label_position(&manifest.widgets, &widget.window_label);
    proof {
        lemma_label_index(manifest@, widget.window_label@);
    }
    if pos == manifest.widgets.len() {
        return Err(widget_not_found_error(widget.window_label.as_str()));
    }
    let ghost w = widget@;
    manifest.widgets.set(pos, widget);
    assert(manifest@ == old(manifest)@.update(pos as int, w));
    Ok(())
}

/// The widget with id `widget_id`, taken out of the manifest.
pub fn take_widget(manifest: Manifest, widget_id: &str) -> (r: Result<WidgetConfig, String>)
    ensures
        match widget_with_id(manifest@, widget_id@) {
            Ok(w) => r matches Ok(c) && c@ == w,
            Err(e) => r matches Err(m) && m@ == e,
        },
{
    let id = widget_id.to_string();
    let pos = id_position(&manifest.widgets, &id);
    proof {
        lemma_id_index(manifest@, id@);
    }
    if pos == manifest.widgets.len() {
        return Err(widget_not_found_error(widget_id));
    }
    let mut ws = manifest.widgets;
    let ghost before = ws@;
    let w = ws.swap_remove(pos);
    assert(w@ == before.map_values(|w: WidgetConfig| w@)[pos as int]);
    Ok(w)
}

/// Saving a widget's settings and then reading the settings of that window
/// gives back what was saved, and every other window keeps the settings it
/// had.
pub proof fn lemma_settings_read_after_write(ws: Seq<ConfigView>, label: Seq<char>, s: SettingsView)
    ensures
        with_settings(ws, label, s) matches Ok(ws2) ==> {
            &&& settings_of(ws2, label) == Ok::<SettingsView, Seq<char>>(s)
            &&& forall|other: Seq<char>| other != label ==> #[trigger] settings_of(ws2, other) == settings_of(ws, other)
        },
        with_settings(ws, label, s) is Err <==> settings_of(ws, label) is Err,
{
    lemma_label_index(ws, label);
    let i = label_index(ws, label);
    if i < ws.len() {
        let ws2 = ws.update(i, ConfigView { settings: s, ..ws[i] });
        lemma_label_index_unique(ws2, label, i);
        assert forall|other: Seq<char>| other != label implies #[trigger] settings_of(ws2, other)
            == settings_of(ws, other) by {
            lemma_label_index(ws, other);
            let j = label_index(ws, other);
            if j != i {
                assert forall|k: int| 0 <= k < j implies ws2[k].window_label != other by {
                    assert(ws2[k].window_label == ws[k].window_label);
                }
                lemma_label_index_unique(ws2, other, j);
            } else {
                assert(j == ws.len() || ws[j].window_label == other);
                lemma_label_index_unique(ws2, other, j);
            }
        }
    }
}

/// Saving a widget's configuration and then looking up its window gives
/// back the saved configuration.
pub proof fn lemma_widget_read_after_write(ws: Seq<ConfigView>, w: ConfigView)
    ensures
        with_widget(ws, w) matches Ok(ws2) ==> ws2[label_index(ws2, w.window_label)] == w
            && label_index(ws2, w.window_label) < ws2.len(),
{
    lemma_label_index(ws, w.window_label);
    let i = label_index(ws, w.window_label);
    if i < ws.len() {
        lemma_label_index_unique(ws.update(i, w), w.window_label, i);
    }
}

/// Every key of `d` has a setting in `s`.
pub open spec fn has_all_keys(s: SettingsView, d: SettingsView) -> bool {
    forall|m: int| 0 <= m < d.len() ==> has_key(s, #[trigger] d[m].0)
}

/// Adding defaults only appends to the settings, and afterwards every key
/// of the defaults has a setting.
pub proof fn lemma_with_defaults(s: SettingsView, d: SettingsView)
    ensures
        with_defaults(s, d).len() >= s.len(),
        with_defaults(s, d).take(s.len() as int) == s,
        has_all_keys(with_defaults(s, d), d),
    decreases d.len(),
{
    if d.len() > 0 {
        lemma_with_defaults(s, d.drop_last());
        let r = with_defaults(s, d.drop_last());
        let k = d.last().0;
        if !has_key(r, k) {
            assert(r.push(d.last()).take(s.len() as int) == r.take(s.len() as int));
            assert(r.push(d.last())[r.len() as int].0 == k);
        }
        let out = with_defaults(s, d);
        assert forall|m: int| 0 <= m < d.len() implies has_key(out, #[trigger] d[m].0) by {
            if m < d.len() - 1 {
                assert(d.drop_last()[m] == d[m]);
                let i = choose|i: int| 0 <= i < r.len() && #[trigger] r[i].0 == d[m].0;
                assert(out[i].0 == d[m].0);
            }
        }
    }
}

/// Adding defaults whose keys all have a setting changes nothing.
pub proof fn lemma_with_defaults_present(s: SettingsView, d: SettingsView)
    requires
        has_all_keys(s, d),
    ensures
        with_defaults(s, d) == s,
    decreases d.len(),
{
    if d.len() > 0 {
        assert forall|m: int| 0 <= m < d.drop_last().len() implies has_key(s, #[trigger] d.drop_last()[m].0) by {
            assert(d.drop_last()[m] == d[m]);
        }
        lemma_with_defaults_present(s, d.drop_last());
        assert(has_key(s, d[d.len() - 1].0));
    }
}

/// The settings made of a list of defaults have a setting for each of its keys.
pub proof fn lemma_from_defaults(d: SettingsView)
    ensures
        has_all_keys(from_defaults(d), d),
    decreases d.len(),
{
    if d.len() > 0 {
        lemma_from_defaults(d.drop_last());
        let r = from_defaults(d.drop_last());
        let x = d.last();
        let out = from_defaults(d);
        lemma_key_index(r, x.0);
        assert forall|m: int| 0 <= m < d.len() implies has_key(out, #[trigger] d[m].0) by {
            if m < d.len() - 1 {
                assert(d.drop_last()[m] == d[m]);
                let i = choose|i: int| 0 <= i < r.len() && #[trigger] r[i].0 == d[m].0;
                assert(out[i].0 == d[m].0);
            } else if has_key(r, x.0) {
                assert(out[key_index(r, x.0)].0 == x.0);
            } else {
                assert(out[r.len() as int].0 == x.0);
            }
        }
    }
}

/// Whether the first widget with the id of `f` exists in `ws` and has a
/// setting for each key that `f` declares.
pub open spec fn settled(ws: Seq<ConfigView>, f: FoundView) -> bool {
    let i = id_index(ws, widget_id_of(f.relative_path));
    i < ws.len() && has_all_keys(ws[i].settings, f.defaults)
}

/// Taking one more folder into account keeps every earlier folder settled,
/// and settles the new one.
pub proof fn lemma_merge_found_settles(ws: Seq<ConfigView>, f: FoundView, g: FoundView)
    requires
        settled(ws, g),
    ensures
        settled(merge_found(ws, f), g),
        settled(merge_found(ws, f), f),
{
    let idf = widget_id_of(f.relative_path);
    let idg = widget_id_of(g.relative_path);
    lemma_id_index(ws, idf);
    lemma_id_index(ws, idg);
    let i = id_index(ws, idf);
    let j = id_index(ws, idg);
    let out = merge_found(ws, f);
    if i < ws.len() {
        let s = ws[i].settings;
        lemma_with_defaults(s, f.defaults);
        assert forall|k: int| 0 <= k < j implies out[k].id != idg by {
            assert(out[k].id == ws[k].id);
        }
        lemma_id_index_unique(out, idg, j);
        assert forall|k: int| 0 <= k < i implies out[k].id != idf by {
            assert(out[k].id == ws[k].id);
        }
        lemma_id_index_unique(out, idf, i);
        if j == i {
            let t = with_defaults(s, f.defaults);
            assert forall|m: int| 0 <= m < g.defaults.len() implies has_key(t, #[trigger] g.defaults[m].0) by {
                let q = choose|q: int| 0 <= q < s.len() && #[trigger] s[q].0 == g.defaults[m].0;
                assert(t.take(s.len() as int)[q] == s[q]);
            }
        }
    } else {
        assert forall|k: int| 0 <= k < j implies out[k].id != idg by {
            assert(out[k] == ws[k]);
        }
        lemma_id_index_unique(out, idg, j);
        assert forall|k: int| 0 <= k < ws.len() implies out[k].id != idf by {
            assert(out[k] == ws[k]);
        }
        lemma_id_index_unique(out, idf, ws.len() as int);
        lemma_from_defaults(f.defaults);
    }
}

/// After taking every found folder into account, every one of them is settled.
pub proof fn lemma_merge_all_settles(ws: Seq<ConfigView>, found: Seq<FoundView>)
    ensures
        forall|k: int| 0 <= k < found.len() ==> settled(merge_all(ws, found), #[trigger] found[k]),
    decreases found.len(),
{
    if found.len() > 0 {
        let prev = found.drop_last();
        lemma_merge_all_settles(ws, prev);
        let w = merge_all(ws, prev);
        let f = found.last();
        assert forall|k: int| 0 <= k < found.len() implies settled(merge_all(ws, found), #[trigger] found[k]) by {
            if k < found.len() - 1 {
                assert(prev[k] == found[k]);
                lemma_merge_found_settles(w, f, found[k]);
            } else {
                let i = id_index(w, widget_id_of(f.relative_path));
                lemma_id_index(w, widget_id_of(f.relative_path));
                if i < w.len() {
                    lemma_with_defaults(w[i].settings, f.defaults);
                    assert forall|q: int| 0 <= q < i implies merge_found(w, f)[q].id != widget_id_of(f.relative_path) by {
                        assert(merge_found(w, f)[q].id == w[q].id);
                    }
                    lemma_id_index_unique(merge_found(w, f), widget_id_of(f.relative_path), i);
                } else {
                    assert forall|q: int| 0 <= q < w.len() implies merge_found(w, f)[q].id != widget_id_of(f.relative_path) by {
                        assert(merge_found(w, f)[q] == w[q]);
                    }
                    lemma_id_index_unique(merge_found(w, f), widget_id_of(f.relative_path), w.len() as int);
                    lemma_from_defaults(f.defaults);
                }
            }
        }
    }
}

/// Dropping the widgets whose folder is gone keeps, for a found id, the
/// first widget with that id.
pub proof fn lemma_keep_found_first(ws: Seq<ConfigView>, ids: Seq<Seq<char>>, id: Seq<char>)
    requires
        ids.contains(id),
        id_index(ws, id) < ws.len(),
    ensures
        id_index(keep_found(ws, ids), id) < keep_found(ws, ids).len(),
        keep_found(ws, ids)[id_index(keep_found(ws, ids), id)] == ws[id_index(ws, id)],
    decreases ws.len(),
{
    let p = is_found(ids);
    let rest = ws.drop_first();
    assert(ws == seq![ws[0]] + rest);
    rest.lemma_filter_prepend(ws[0], p);
    let r = keep_found(ws, ids);
    let rr = keep_found(rest, ids);
    if ws[0].id == id {
        assert(p(ws[0]));
        assert(r == seq![ws[0]] + rr);
        assert(r[0] == ws[0]);
        assert(id_index(r, id) == 0);
        assert(id_index(ws, id) == 0);
    } else {
        assert(id_index(ws, id) == 1 + id_index(rest, id));
        lemma_id_index(rest, id);
        assert(ws[1 + id_index(rest, id)] == rest[id_index(rest, id)]);
        lemma_keep_found_first(rest, ids, id);
        let x = id_index(rr, id);
        lemma_id_index(rr, id);
        assert(x < rr.len());
        assert(rr[x] == rest[id_index(rest, id)]);
        if p(ws[0]) {
            assert(r == seq![ws[0]] + rr);
            assert(r.drop_first() == rr);
            assert(r.len() == rr.len() + 1);
            assert(r.drop_first()[x] == r[x + 1]);
            assert(r[1 + x] == rr[x]);
            assert(id_index(r, id) == 1 + x);
        } else {
            assert(r == rr);
        }
    }
}

/// Filtering a sequence whose items all pass changes nothing.
pub proof fn lemma_filter_all_pass(s: Seq<ConfigView>, p: spec_fn(ConfigView) -> bool)
    requires
        forall|i: int| 0 <= i < s.len() ==> p(#[trigger] s[i]),
    ensures
        s.filter(p) == s,
    decreases s.len(),
{
    reveal_with_fuel(Seq::filter, 1);
    if s.len() > 0 {
        assert forall|i: int| 0 <= i < s.drop_last().len() implies p(#[trigger] s.drop_last()[i]) by {
            assert(s.drop_last()[i] == s[i]);
        }
        lemma_filter_all_pass(s.drop_last(), p);
        assert(p(s[s.len() - 1]));
        assert(s.drop_last().push(s.last()) == s);
    }
}

/// Every found folder is settled in the synchronised widgets: a widget with
/// its id is there, and the first such widget has a setting for every key
/// the folder's `widget.json` declares.
pub proof fn lemma_sync_settles_found(ws: Seq<ConfigView>, found: Seq<FoundView>)
    ensures
        forall|k: int| 0 <= k < found.len() ==> settled(synced_widgets(ws, found), #[trigger] found[k]),
{
    let w = merge_all(ws, found);
    let ids = found_ids(found);
    lemma_merge_all_settles(ws, found);
    assert forall|k: int| 0 <= k < found.len() implies settled(synced_widgets(ws, found), #[trigger] found[k]) by {
        let id = widget_id_of(found[k].relative_path);
        assert(ids[k] == id);
        assert(ids.contains(id));
        assert(settled(w, found[k]));
        lemma_keep_found_first(w, ids, id);
    }
}

/// Every synchronised widget belongs to a folder that was found.
pub proof fn lemma_sync_keeps_only_found(ws: Seq<ConfigView>, found: Seq<FoundView>)
    ensures
        forall|i: int| 0 <= i < synced_widgets(ws, found).len() ==> found_ids(found).contains(
            #[trigger] synced_widgets(ws, found)[i].id,
        ),
{
    broadcast use vstd::seq_lib::group_filter_ensures;
    let p = is_found(found_ids(found));
    assert forall|i: int| 0 <= i < synced_widgets(ws, found).len() implies found_ids(found).contains(
        #[trigger] synced_widgets(ws, found)[i].id,
    ) by {
        merge_all(ws, found).lemma_filter_pred(p, i);
    }
}

/// Taking found folders into account that are all settled changes nothing.
pub proof fn lemma_merge_all_settled(ws: Seq<ConfigView>, found: Seq<FoundView>)
    requires
        forall|k: int| 0 <= k < found.len() ==> settled(ws, #[trigger] found[k]),
    ensures
        merge_all(ws, found) == ws,
    decreases found.len(),
{
    if found.len() > 0 {
        assert forall|k: int| 0 <= k < found.drop_last().len() implies settled(ws, #[trigger] found.drop_last()[k]) by {
            assert(found.drop_last()[k] == found[k]);
        }
        lemma_merge_all_settled(ws, found.drop_last());
        let f = found.last();
        assert(f == found[found.len() - 1]);
        assert(settled(ws, f));
        let i = id_index(ws, widget_id_of(f.relative_path));
        assert(0 <= i < ws.len()) by {
            lemma_id_index(ws, widget_id_of(f.relative_path));
        }
        lemma_with_defaults_present(ws[i].settings, f.defaults);
        assert(ConfigView { settings: with_defaults(ws[i].settings, f.defaults), ..ws[i] } == ws[i]);
        assert(merge_found(ws, f) == ws.update(i, ws[i]));
        assert(ws.update(i, ws[i]) =~= ws);
    }
}

/// Synchronising a second time with the same folders changes nothing.
pub proof fn lemma_sync_idempotent(ws: Seq<ConfigView>, found: Seq<FoundView>)
    ensures
        synced_widgets(synced_widgets(ws, found), found) == synced_widgets(ws, found),
{
    let r = synced_widgets(ws, found);
    lemma_sync_settles_found(ws, found);
    lemma_merge_all_settled(r, found);
    lemma_sync_keeps_only_found(ws, found);
    lemma_filter_all_pass(r, is_found(found_ids(found)));
}

/// `b` is `a` with possibly more settings appended: every other field, and
/// every saved setting, is as in `a`.
pub open spec fn extends(a: ConfigView, b: ConfigView) -> bool {
    &&& b == ConfigView { settings: b.settings, ..a }
    &&& b.settings.len() >= a.settings.len()
    &&& b.settings.take(a.settings.len() as int) == a.settings
}

/// Taking found folders into account leaves the first widget with a given
/// id at its place, extended.
pub proof fn lemma_merge_all_extends(ws: Seq<ConfigView>, found: Seq<FoundView>, id: Seq<char>)
    requires
        id_index(ws, id) < ws.len(),
    ensures
        merge_all(ws, found).len() >= ws.len(),
        id_index(merge_all(ws, found), id) == id_index(ws, id),
        extends(ws[id_index(ws, id)], merge_all(ws, found)[id_index(ws, id)]),
    decreases found.len(),
{
    lemma_id_index(ws, id);
    let i = id_index(ws, id);
    if found.len() == 0 {
        assert(ws[i].settings.take(ws[i].settings.len() as int) == ws[i].settings);
    } else {
        lemma_merge_all_extends(ws, found.drop_last(), id);
        let w = merge_all(ws, found.drop_last());
        let f = found.last();
        let idf = widget_id_of(f.relative_path);
        lemma_id_index(w, id);
        lemma_id_index(w, idf);
        let j = id_index(w, idf);
        let out = merge_found(w, f);
        if j < w.len() {
            assert forall|k: int| 0 <= k < i implies out[k].id != id by {
                assert(out[k].id == w[k].id);
            }
            lemma_id_index_unique(out, id, i);
            if j == i {
                let s = w[i].settings;
                lemma_with_defaults(s, f.defaults);
                let a = ws[i].settings;
                let t = with_defaults(s, f.defaults);
                assert(out[i].settings == t);
                assert(t.take(a.len() as int) =~= t.take(s.len() as int).take(a.len() as int));
                assert(s.take(a.len() as int) == a);
                assert(out[i].settings.take(a.len() as int) == a);
            }
        } else {
            assert forall|k: int| 0 <= k < i implies out[k].id != id by {
                assert(out[k] == w[k]);
            }
            lemma_id_index_unique(out, id, i);
        }
    }
}

/// Synchronising keeps what was saved for a widget whose folder is still
/// there: the first widget with its id keeps its window, its state, its
/// geometry and every saved setting value, and may only gain settings.
pub proof fn lemma_sync_keeps_saved(ws: Seq<ConfigView>, found: Seq<FoundView>, id: Seq<char>)
    requires
        id_index(ws, id) < ws.len(),
        found_ids(found).contains(id),
    ensures
        id_index(synced_widgets(ws, found), id) < synced_widgets(ws, found).len(),
        extends(ws[id_index(ws, id)], synced_widgets(ws, found)[id_index(synced_widgets(ws, found), id)]),
{
    lemma_merge_all_extends(ws, found, id);
    lemma_keep_found_first(merge_all(ws, found), found_ids(found), id);
}

/// The setting defaults that the found folders with id `id` declare, folder
/// after folder, in the order they were found.
pub open spec fn defaults_for(found: Seq<FoundView>, id: Seq<char>) -> SettingsView
    decreases found.len(),
{
    if found.len() == 0 {
        Seq::empty()
    } else if widget_id_of(found.last().relative_path) == id {
        defaults_for(found.drop_last(), id) + found.last().defaults
    } else {
        defaults_for(found.drop_last(), id)
    }
}

/// Adding two lists of defaults one after the other is adding them joined.
pub proof fn lemma_with_defaults_twice(s: SettingsView, a: SettingsView, b: SettingsView)
    ensures
        with_defaults(with_defaults(s, a), b) == with_defaults(s, a + b),
    decreases b.len(),
{
    if b.len() == 0 {
        assert(a + b =~= a);
    } else {
        lemma_with_defaults_twice(s, a, b.drop_last());
        assert((a + b).drop_last() =~= a + b.drop_last());
        assert((a + b).last() == b.last());
    }
}

/// Taking found folders into account changes no window label and no id of
/// the widgets already there, and only appends widgets.
pub proof fn lemma_merge_all_keeps_labels(ws: Seq<ConfigView>, found: Seq<FoundView>)
    ensures
        merge_all(ws, found).len() >= ws.len(),
        forall|k: int| 0 <= k < ws.len() ==> (#[trigger] merge_all(ws, found)[k]).window_label
            == ws[k].window_label && merge_all(ws, found)[k].id == ws[k].id,
    decreases found.len(),
{
    if found.len() > 0 {
        lemma_merge_all_keeps_labels(ws, found.drop_last());
        let w = merge_all(ws, found.drop_last());
        let f = found.last();
        lemma_id_index(w, widget_id_of(f.relative_path));
        assert forall|k: int| 0 <= k < ws.len() implies (#[trigger] merge_all(ws, found)[k]).window_label
            == ws[k].window_label && merge_all(ws, found)[k].id == ws[k].id by {
            assert(merge_all(ws, found)[k].window_label == w[k].window_label);
        }
    }
}

/// Taking two lists of found folders into account one after the other is
/// taking them joined.
pub proof fn lemma_merge_all_append(ws: Seq<ConfigView>, a: Seq<FoundView>, b: Seq<FoundView>)
    ensures
        merge_all(ws, a + b) == merge_all(merge_all(ws, a), b),
    decreases b.len(),
{
    if b.len() == 0 {
        assert(a + b =~= a);
    } else {
        lemma_merge_all_append(ws, a, b.drop_last());
        assert((a + b).drop_last() =~= a + b.drop_last());
        assert((a + b).last() == b.last());
    }
}

/// Where neither the widgets nor any found folder has id `id`, no widget
/// has it after taking the folders into account.
proof fn lemma_merge_all_absent(ws: Seq<ConfigView>, found: Seq<FoundView>, id: Seq<char>)
    requires
        forall|j: int| 0 <= j < ws.len() ==> (#[trigger] ws[j]).id != id,
        forall|q: int| 0 <= q < found.len() ==> widget_id_of(#[trigger] found[q].relative_path) != id,
    ensures
        forall|j: int| 0 <= j < merge_all(ws, found).len() ==> (#[trigger] merge_all(ws, found)[j]).id != id,
    decreases found.len(),
{
    if found.len() > 0 {
        let prev = found.drop_last();
        assert forall|q: int| 0 <= q < prev.len() implies widget_id_of(#[trigger] prev[q].relative_path) != id by {
            assert(prev[q] == found[q]);
        }
        lemma_merge_all_absent(ws, prev, id);
        let w = merge_all(ws, prev);
        let f = found.last();
        assert(widget_id_of(found[found.len() - 1].relative_path) != id);
        lemma_id_index(w, widget_id_of(f.relative_path));
        let out = merge_all(ws, found);
        assert forall|j: int| 0 <= j < out.len() implies (#[trigger] out[j]).id != id by {
            if j < w.len() {
                assert(out[j].id == w[j].id);
            }
        }
    }
}

/// A widget folder found for the first time (no saved widget has its id)
/// gives, after synchronising, a widget with that id that takes from the
/// first such folder's `widget.json` its interactive flag and its size; it
/// is enabled, at the default position, with the id as its window label.
pub proof fn lemma_sync_new_widget(ws: Seq<ConfigView>, found: Seq<FoundView>, k: int)
    requires
        0 <= k < found.len(),
        id_index(ws, widget_id_of(found[k].relative_path)) == ws.len(),
        forall|q: int| 0 <= q < k ==> widget_id_of(#[trigger] found[q].relative_path) != widget_id_of(
            found[k].relative_path,
        ),
    ensures
        ({
            let id = widget_id_of(found[k].relative_path);
            let r = synced_widgets(ws, found);
            let i = id_index(r, id);
            &&& i < r.len()
            &&& r[i].id == id
            &&& r[i].window_label == id
            &&& r[i].enabled
            &&& r[i].interactive == found[k].interactive
            &&& r[i].width_bits == found[k].default_width_bits
            &&& r[i].height_bits == found[k].default_height_bits
            &&& r[i].x_bits == DEFAULT_POSITION_BITS
            &&& r[i].y_bits == DEFAULT_POSITION_BITS
        }),
{
    let id = widget_id_of(found[k].relative_path);
    let a = found.take(k);
    let b = found.skip(k);
    assert(found == a + b);
    lemma_merge_all_append(ws, a, b);
    lemma_id_index(ws, id);
    assert forall|q: int| 0 <= q < a.len() implies widget_id_of(#[trigger] a[q].relative_path) != id by {
        assert(a[q] == found[q]);
    }
    lemma_merge_all_absent(ws, a, id);
    let w = merge_all(ws, a);
    lemma_id_index_unique(w, id, w.len() as int);
    let f = found[k];
    let b1 = seq![f];
    let rest = found.skip(k + 1);
    assert(b =~= b1 + rest);
    lemma_merge_all_append(w, b1, rest);
    assert(b1.drop_last() =~= Seq::<FoundView>::empty());
    assert(merge_all(w, b1.drop_last()) == w);
    assert(b1.last() == f);
    assert(merge_all(w, b1) == merge_found(w, f));
    let w1 = merge_found(w, f);
    assert(w1 == w.push(new_config(id, f)));
    let n = w.len() as int;
    assert forall|j: int| 0 <= j < n implies w1[j].id != id by {
        assert(w1[j] == w[j]);
    }
    lemma_id_index_unique(w1, id, n);
    lemma_merge_all_extends(w1, rest, id);
    let m = merge_all(w1, rest);
    assert(m == merge_all(ws, found));
    let ids = found_ids(found);
    assert(ids[k] == id);
    assert(ids.contains(id));
    lemma_keep_found_first(m, ids, id);
}

/// Taking found folders into account gives the first widget with id `id`
/// the defaults of every folder with that id, added to what it saved.
pub proof fn lemma_merge_all_settings(ws: Seq<ConfigView>, found: Seq<FoundView>, id: Seq<char>)
    requires
        id_index(ws, id) < ws.len(),
    ensures
        merge_all(ws, found)[id_index(ws, id)].settings == with_defaults(
            ws[id_index(ws, id)].settings,
            defaults_for(found, id),
        ),
    decreases found.len(),
{
    let i = id_index(ws, id);
    lemma_id_index(ws, id);
    if found.len() == 0 {
    } else {
        let prev = found.drop_last();
        lemma_merge_all_settings(ws, prev, id);
        lemma_merge_all_extends(ws, prev, id);
        let w = merge_all(ws, prev);
        let f = found.last();
        let idf = widget_id_of(f.relative_path);
        lemma_id_index(w, idf);
        lemma_id_index(w, id);
        if idf == id {
            lemma_with_defaults_twice(ws[i].settings, defaults_for(prev, id), f.defaults);
        } else {
            let j = id_index(w, idf);
            assert(j != i);
        }
    }
}

/// Filtering keeps an item that passes after exactly the items before it
/// that pass.
proof fn lemma_filter_keeps_at(m: Seq<ConfigView>, p: spec_fn(ConfigView) -> bool, i: int)
    requires
        0 <= i < m.len(),
        p(m[i]),
    ensures
        m.take(i).filter(p).len() < m.filter(p).len(),
        m.filter(p)[m.take(i).filter(p).len() as int] == m[i],
        forall|q: int| 0 <= q < m.take(i).filter(p).len() ==> m.take(i).contains(#[trigger] m.filter(p)[q]),
{
    let a = m.take(i + 1);
    let b = m.skip(i + 1);
    assert(m == a + b);
    Seq::filter_distributes_over_add(a, b, p);
    assert(a == m.take(i).push(m[i]));
    m.take(i).lemma_filter_push(m[i], p);
    let f = m.take(i).filter(p);
    assert(m.filter(p) == f.push(m[i]) + b.filter(p));
    assert forall|q: int| 0 <= q < f.len() implies m.take(i).contains(#[trigger] m.filter(p)[q]) by {
        assert(m.filter(p)[q] == f[q]);
        assert(f.contains(f[q]));
        m.take(i).lemma_filter_contains_rev(p, f[q]);
    }
}

/// Taking found folders into account leaves a widget that is not the
/// first with its id as it was.
pub proof fn lemma_merge_all_keeps_later(ws: Seq<ConfigView>, found: Seq<FoundView>, k: int)
    requires
        0 <= k < ws.len(),
        id_index(ws, ws[k].id) != k,
    ensures
        merge_all(ws, found)[k] == ws[k],
    decreases found.len(),
{
    if found.len() > 0 {
        let prev = found.drop_last();
        lemma_merge_all_keeps_later(ws, prev, k);
        let w = merge_all(ws, prev);
        let f = found.last();
        let idf = widget_id_of(f.relative_path);
        lemma_id_index(ws, ws[k].id);
        lemma_merge_all_extends(ws, prev, ws[k].id);
        lemma_merge_all_keeps_labels(ws, prev);
        lemma_id_index(w, idf);
        if id_index(w, idf) == k {
            assert(w[k].id == idf);
            assert(idf == ws[k].id);
        }
    }
}

/// Saving a widget's settings and then synchronising and reading the
/// settings of that window, whose widget's folder is still found, gives the
/// saved settings, with the default of each key they lack that the folder
/// declares when the window's widget is the first with its id, and as saved
/// when another widget with that id comes before it (that one gets the
/// defaults). Either way, saved settings that hold every declared key come
/// back exactly as the saved settings with the defaults added.
pub proof fn lemma_settings_read_after_save_and_sync(
    ws: Seq<ConfigView>,
    label: Seq<char>,
    s: SettingsView,
    found: Seq<FoundView>,
)
    requires
        with_settings(ws, label, s) is Ok,
        found_ids(found).contains(ws[label_index(ws, label)].id),
    ensures
        id_index(ws, ws[label_index(ws, label)].id) == label_index(ws, label) ==> settings_of(
            synced_widgets(with_settings(ws, label, s)->Ok_0, found),
            label,
        ) == Ok::<SettingsView, Seq<char>>(with_defaults(s, defaults_for(found, ws[label_index(ws, label)].id))),
        id_index(ws, ws[label_index(ws, label)].id) != label_index(ws, label) ==> settings_of(
            synced_widgets(with_settings(ws, label, s)->Ok_0, found),
            label,
        ) == Ok::<SettingsView, Seq<char>>(s),
        has_all_keys(s, defaults_for(found, ws[label_index(ws, label)].id)) ==> settings_of(
            synced_widgets(with_settings(ws, label, s)->Ok_0, found),
            label,
        ) == Ok::<SettingsView, Seq<char>>(with_defaults(s, defaults_for(found, ws[label_index(ws, label)].id))),
{
    lemma_label_index(ws, label);
    let i = label_index(ws, label);
    let id = ws[i].id;
    let d = defaults_for(found, id);
    let ws2 = ws.update(i, ConfigView { settings: s, ..ws[i] });
    assert(with_settings(ws, label, s)->Ok_0 == ws2);
    lemma_id_index(ws, id);
    let first = id_index(ws, id);
    assert forall|k: int| 0 <= k < first implies ws2[k].id != id by {
        assert(ws2[k].id == ws[k].id);
    }
    assert(ws2[first].id == id);
    lemma_id_index_unique(ws2, id, first);
    lemma_merge_all_keeps_labels(ws2, found);
    let m = merge_all(ws2, found);
    if first == i {
        lemma_merge_all_settings(ws2, found, id);
    } else {
        lemma_merge_all_keeps_later(ws2, found, i);
    }
    if has_all_keys(s, d) {
        lemma_with_defaults_present(s, d);
    }
    let ids = found_ids(found);
    let pr = is_found(ids);
    assert(m[i].id == id);
    assert(pr(m[i]));
    lemma_filter_keeps_at(m, pr, i);
    let r = keep_found(m, ids);
    let j = m.take(i).filter(pr).len() as int;
    assert forall|q: int| 0 <= q < j implies r[q].window_label != label by {
        assert(m.take(i).contains(m.filter(pr)[q]));
        let k = choose|k: int| 0 <= k < i && #[trigger] m.take(i)[k] == m.filter(pr)[q];
        assert(m[k] == r[q]);
        assert(m[k].window_label == ws2[k].window_label);
        assert(ws2[k] == ws[k]);
    }
    assert(r[j].window_label == label);
    lemma_label_index_unique(r, label, j);
}

/// Where exactly one found folder has id `id`, the defaults for `id` are
/// that folder's.
pub proof fn lemma_defaults_for_single(found: Seq<FoundView>, id: Seq<char>, k: int)
    requires
        0 <= k < found.len(),
        widget_id_of(found[k].relative_path) == id,
        forall|q: int| 0 <= q < found.len() && q != k ==> widget_id_of(#[trigger] found[q].relative_path) != id,
    ensures
        defaults_for(found, id) == found[k].defaults,
    decreases found.len(),
{
    let prev = found.drop_last();
    if k == found.len() - 1 {
        lemma_defaults_for_absent(prev, id);
        assert(Seq::<(Seq<char>, Seq<char>)>::empty() + found[k].defaults =~= found[k].defaults);
    } else {
        assert forall|q: int| 0 <= q < prev.len() && q != k implies widget_id_of(
            #[trigger] prev[q].relative_path,
        ) != id by {
            assert(prev[q] == found[q]);
        }
        assert(prev[k] == found[k]);
        lemma_defaults_for_single(prev, id, k);
        assert(widget_id_of(found[found.len() - 1].relative_path) != id);
    }
}

/// Where no found folder has id `id`, there are no defaults for it.
proof fn lemma_defaults_for_absent(found: Seq<FoundView>, id: Seq<char>)
    requires
        forall|q: int| 0 <= q < found.len() ==> widget_id_of(#[trigger] found[q].relative_path) != id,
    ensures
        defaults_for(found, id) == Seq::<(Seq<char>, Seq<char>)>::empty(),
    decreases found.len(),
{
    if found.len() > 0 {
        let prev = found.drop_last();
        assert forall|q: int| 0 <= q < prev.len() implies widget_id_of(#[trigger] prev[q].relative_path) != id by {
            assert(prev[q] == found[q]);
        }
        lemma_defaults_for_absent(prev, id);
        assert(widget_id_of(found[found.len() - 1].relative_path) != id);
    }
}

/// What the settings page shows of one widget: its configuration together
/// with its description.
#[derive(Debug, Clone, PartialEq, Eq)]
pub struct WidgetData {
    pub id: String,
    pub window_label: String,
    pub name: String,
    pub version: String,
    pub author: String,
    pub description: String,
    pub enabled: bool,
    pub width_bits: u64,
    pub height_bits: u64,
    pub x_bits: u64,
    pub y_bits: u64,
    pub interactive: bool,
    pub setting_definitions: Vec<WidgetSettingDefinition>,
    pub settings: Vec<SettingValue>,
}

/// `d` joins the configuration `c` and the description `info`.
pub open spec fn joins(d: WidgetData, c: WidgetConfig, info: WidgetInfo) -> bool {
    &&& d.id == c.id
    &&& d.window_label == c.window_label
    &&& d.name == info.name
    &&& d.version == info.version
    &&& d.author == info.author
    &&& d.description == info.description
    &&& d.enabled == c.enabled
    &&& d.width_bits == c.width_bits
    &&& d.height_bits == c.height_bits
    &&& d.x_bits == c.x_bits
    &&& d.y_bits == c.y_bits
    &&& d.interactive == c.interactive
    &&& d.setting_definitions == info.settings
    &&& d.settings == c.settings
}

/// Joins a widget's configuration and its description.
pub fn widget_data(c: WidgetConfig, info: WidgetInfo) -> (d: WidgetData)
    ensures
        joins(d, c, info),
        d.id == c.id && d.window_label == c.window_label,
        d.name == info.name && d.version == info.version && d.author == info.author,
        d.description == info.description,
        d.enabled == c.enabled && d.interactive == c.interactive,
        d.width_bits == c.width_bits && d.height_bits == c.height_bits,
        d.x_bits == c.x_bits && d.y_bits == c.y_bits,
        d.setting_definitions == info.settings && d.settings == c.settings,
{
    WidgetData {
        id: c.id,
        window_label: c.window_label,
        name: info.name,
        version: info.version,
        author: info.author,
        description: info.description,
        enabled: c.enabled,
        width_bits: c.width_bits,
        height_bits: c.height_bits,
        x_bits: c.x_bits,
        y_bits: c.y_bits,
        interactive: c.interactive,
        setting_definitions: info.settings,
        settings: c.settings,
    }
}

/// Joins every widget of the manifest with its description, `infos[i]`
/// describing the `i`-th widget, in manifest order.
pub fn widgets_data(manifest: Manifest, infos: Vec<WidgetInfo>) -> (r: Vec<WidgetData>)
    requires
        infos.len() == manifest.widgets.len(),
    ensures
        r.len() == manifest.widgets.len(),
        forall|i: int| 0 <= i < r.len() ==> joins(#[trigger] r@[i], manifest.widgets@[i], infos@[i]),
        forall|i: int| 0 <= i < r.len() ==> (#[trigger] r@[i]).width_bits == manifest.widgets@[i].width_bits
            && r@[i].height_bits == manifest.widgets@[i].height_bits && r@[i].x_bits == manifest.widgets@[i].x_bits
            && r@[i].y_bits == manifest.widgets@[i].y_bits,
        forall|i: int| 0 <= i < r.len() ==> (#[trigger] r@[i]).id == manifest.widgets@[i].id
            && r@[i].window_label == manifest.widgets@[i].window_label && r@[i].enabled
            == manifest.widgets@[i].enabled && r@[i].interactive == manifest.widgets@[i].interactive
            && r@[i].settings == manifest.widgets@[i].settings,
        forall|i: int| 0 <= i < r.len() ==> (#[trigger] r@[i]).name == infos@[i].name && r@[i].version
            == infos@[i].version && r@[i].author == infos@[i].author && r@[i].description == infos@[i].description
            && r@[i].setting_definitions == infos@[i].settings,
{
    let ghost ws = manifest.widgets@;
    let ghost is = infos@;
    let mut rest = infos;
    let mut r: Vec<WidgetData> = Vec::new();
    for c in it: manifest.widgets.into_iter()
        invariant
            it.seq() == ws,
            ws.len() == is.len(),
            r.len() == it.index(),
            rest@ == is.skip(it.index() as int),
            forall|i: int| 0 <= i < r.len() ==> joins(#[trigger] r@[i], ws[i], is[i]),
    {
        let ghost k = it.index() as int;
        let info = rest.remove(0);
        assert(info == is[k]);
        assert(rest@ == is.skip(k + 1));
        r.push(widget_data(c, info));
    }
    r
}

} // verus!
