//! Opening, reloading and starting widget windows: which windows to open,
//! with which address, and what to do with a window that is already open.

use vstd::prelude::*;
use crate::manifest::{ConfigView, Manifest, WidgetConfig};
use crate::text::{
    chars_of, concat2, concat3, first_index, has_prefix, lemma_first_index_unique, replace_char, replace_char_in,
    starts_with_at,
};

verus! {

/// The address of the page of the widget with id `id`.
pub open spec fn widget_page_url(id: Seq<char>) -> Seq<char> {
    "widget://localhost/"@ + id + "/index.html"@
}

/// The address of the page of the widget with id `id`.
pub fn widget_page_address(id: &str) -> (url: String)
    ensures
        url@ == widget_page_url(id@),
{
    concat3("widget://localhost/", id, "/index.html")
}

/// What is needed to open one widget window.
#[derive(Debug, Clone, PartialEq, Eq)]
pub struct LaunchRequest {
    pub label: String,
    pub url: String,
    pub x_bits: u64,
    pub y_bits: u64,
    pub width_bits: u64,
    pub height_bits: u64,
    pub interactive: bool,
}

/// What opening one widget window needs.
#[verifier::ext_equal]
pub struct LaunchView {
    pub label: Seq<char>,
    pub url: Seq<char>,
    pub x_bits: u64,
    pub y_bits: u64,
    pub width_bits: u64,
    pub height_bits: u64,
    pub interactive: bool,
}

impl View for LaunchRequest {
    type V = LaunchView;

    open spec fn view(&self) -> LaunchView {
        LaunchView {
            label: self.label@,
            url: self.url@,
            x_bits: self.x_bits,
            y_bits: self.y_bits,
            width_bits: self.width_bits,
            height_bits: self.height_bits,
            interactive: self.interactive,
        }
    }
}

/// The window a widget's configuration asks for: its page, at its place and size.
pub open spec fn launch_of(w: ConfigView) -> LaunchView {
    LaunchView {
        label: w.window_label,
        url: widget_page_url(w.id),
        x_bits: w.x_bits,
        y_bits: w.y_bits,
        width_bits: w.width_bits,
        height_bits: w.height_bits,
        interactive: w.interactive,
    }
}

/// The window a widget's configuration asks for.
pub fn launch_request(w: &WidgetConfig) -> (r: LaunchRequest)
    ensures
        r@ == launch_of(w@),
        r.label@ == w.window_label@,
        r.url@ == "widget://localhost/"@ + w.id@ + "/index.html"@,
        r.x_bits == w.x_bits,
        r.y_bits == w.y_bits,
        r.width_bits == w.width_bits,
        r.height_bits == w.height_bits,
        r.interactive == w.interactive,
{
    LaunchRequest {
        label: w.window_label.clone(),
        url: widget_page_address(w.id.as_str()),
        x_bits: w.x_bits,
        y_bits: w.y_bits,
        width_bits: w.width_bits,
        height_bits: w.height_bits,
        interactive: w.interactive,
    }
}

/// Whether a widget is enabled.
pub open spec fn is_enabled() -> spec_fn(ConfigView) -> bool {
    |w: ConfigView| w.enabled
}

/// The windows opened at start: the window of each enabled widget, in manifest order.
pub open spec fn startup_windows(ws: Seq<ConfigView>) -> Seq<LaunchView> {
    ws.filter(is_enabled()).map_values(|w: ConfigView| launch_of(w))
}

/// The windows to open at start: one per enabled widget, in manifest order;
/// disabled widgets are skipped.
pub fn startup_launches(manifest: &Manifest) -> (r: Vec<LaunchRequest>)
    ensures
        r@.map_values(|l: LaunchRequest| l@) == startup_windows(manifest@),
{
    let ghost ws = manifest@;
    let mut r: Vec<LaunchRequest> = Vec::new();
    let mut i: usize = 0;
    while i < manifest.widgets.len()
        invariant
            i <= manifest.widgets.len(),
            ws == manifest@,
            r@.map_values(|l: LaunchRequest| l@) == startup_windows(ws.take(i as int)),
        decreases manifest.widgets.len() - i,
    {
        proof {
            assert(ws.take(i + 1) == ws.take(i as int).push(ws[i as int]));
            ws.take(i as int).lemma_filter_push(ws[i as int], is_enabled());
        }
        if manifest.widgets[i].enabled {
            let ghost before = r@;
            r.push(launch_request(&manifest.widgets[i]));
            assert(r@.map_values(|l: LaunchRequest| l@) == before.map_values(|l: LaunchRequest| l@).push(
                launch_of(ws[i as int]),
            ));
        }
        i = i + 1;
    }
    assert(ws.take(manifest.widgets.len() as int) == ws);
    r
}

/// Whether the window `l` carries the window label, the page, the saved
/// place and size and the interactive flag of the widget `w`.
pub open spec fn carries(l: LaunchView, w: ConfigView) -> bool {
    &&& l.label == w.window_label
    &&& l.url == "widget://localhost/"@ + w.id + "/index.html"@
    &&& l.x_bits == w.x_bits
    &&& l.y_bits == w.y_bits
    &&& l.width_bits == w.width_bits
    &&& l.height_bits == w.height_bits
    &&& l.interactive == w.interactive
}

/// Whether `l` carries the fields of one of the enabled widgets of `ws`.
pub open spec fn carries_enabled(ws: Seq<ConfigView>, l: LaunchView) -> bool {
    exists|i: int| 0 <= i < ws.len() && ws[i].enabled && #[trigger] carries(l, ws[i])
}

/// Whether one of the windows `ls` carries the fields of the widget `w`.
pub open spec fn carried_by_one(ls: Seq<LaunchView>, w: ConfigView) -> bool {
    exists|k: int| 0 <= k < ls.len() && #[trigger] carries(ls[k], w)
}

/// Each window opened at start carries the fields of an enabled widget
/// (its label, page, saved place and size, and interactive flag), and each
/// enabled widget has a window that carries its fields.
pub proof fn lemma_startup_windows_carry_saved_fields(ws: Seq<ConfigView>)
    ensures
        forall|k: int| 0 <= k < startup_windows(ws).len() ==> carries_enabled(ws, #[trigger] startup_windows(ws)[k]),
        forall|i: int| 0 <= i < ws.len() && (#[trigger] ws[i]).enabled ==> carried_by_one(startup_windows(ws), ws[i]),
{
    lemma_startup_opens_enabled(ws);
    let out = startup_windows(ws);
    assert forall|k: int| 0 <= k < out.len() implies carries_enabled(ws, #[trigger] out[k]) by {
        assert(window_of_enabled(ws, out[k]));
        let i = choose|i: int| 0 <= i < ws.len() && ws[i].enabled && out[k] == #[trigger] launch_of(ws[i]);
        assert(carries(out[k], ws[i]));
    }
    assert forall|i: int| 0 <= i < ws.len() && (#[trigger] ws[i]).enabled implies carried_by_one(out, ws[i]) by {
        assert(out.contains(launch_of(ws[i])));
        let k = choose|k: int| 0 <= k < out.len() && out[k] == launch_of(ws[i]);
        assert(carries(out[k], ws[i]));
    }
}

/// What reloading a widget does.
#[derive(Debug, Clone, PartialEq, Eq)]
pub struct ReloadPlan {
    /// Close the window of the widget that is open.
    pub close_window: bool,
    /// Give the closed window time to go before opening the new one.
    pub wait_after_close: bool,
    /// The window to open afterwards, if any.
    pub launch: Option<LaunchRequest>,
}

/// Decides how to reload a widget whose window is open or not: a disabled
/// widget only has its open window closed; an enabled one has its open
/// window closed, then, after a pause, opened again from its configuration.
pub fn reload_plan(widget: &WidgetConfig, window_open: bool) -> (p: ReloadPlan)
    ensures
        p.close_window == window_open,
        p.wait_after_close == (window_open && widget.enabled),
        widget.enabled ==> (p.launch matches Some(l) && l@ == launch_of(widget@)),
        !widget.enabled ==> p.launch is None,
{
    if !widget.enabled {
        ReloadPlan { close_window: window_open, wait_after_close: false, launch: None }
    } else {
        ReloadPlan { close_window: window_open, wait_after_close: window_open, launch: Some(launch_request(widget)) }
    }
}

/// The address prefixes that are opened as written.
pub open spec fn known_prefix(url: Seq<char>) -> bool {
    ||| has_prefix(url, "widget://"@)
    ||| has_prefix(url, "asset://"@)
    ||| has_prefix(url, "http://"@)
    ||| has_prefix(url, "https://"@)
    ||| has_prefix(url, "file:///"@)
}

/// The address a widget window opens: one with a known prefix as written,
/// any other taken as a path below the widgets directory.
pub open spec fn normalized_widget_url(url: Seq<char>) -> Seq<char> {
    if known_prefix(url) {
        url
    } else {
        "widget://localhost/"@ + replace_char(url, '\\', '/')
    }
}

/// Whether `s` starts with `p`.
fn starts_with_text(s: &Vec<char>, p: &str) -> (b: bool)
    ensures
        b == has_prefix(s@, p@),
{
    let pv = chars_of(p);
    assert(s@.subrange(0, s@.len() as int) == s@);
    starts_with_at(s, 0, s.len(), &pv)
}

/// The address a widget window opens.
pub fn normalize_widget_url(url: &str) -> (r: String)
    ensures
        r@ == normalized_widget_url(url@),
{
    let v = chars_of(url);
    if starts_with_text(&v, "widget://") || starts_with_text(&v, "asset://") || starts_with_text(&v, "http://")
        || starts_with_text(&v, "https://") || starts_with_text(&v, "file:///") {
        url.to_string()
    } else {
        let path = replace_char_in(url, '\\', '/');
        concat2("widget://localhost/", path.as_str())
    }
}

/// What `url::Url::parse` gives for `input`: the URL's scheme, or the
/// error's message.
pub uninterp spec fn url_parse(input: Seq<char>) -> Result<Seq<char>, Seq<char>>;

/// The text before the first `:` of `s`, when it is not empty and made of
/// lower-case ASCII letters alone.
pub open spec fn lowercase_scheme(s: Seq<char>) -> Option<Seq<char>> {
    let n = first_index(s, ':');
    if 0 < n < s.len() && forall|j: int| 0 <= j < n ==> 'a' <= #[trigger] s[j] && s[j] <= 'z' {
        Some(s.take(n))
    } else {
        None
    }
}

/// Parses `input` with `url::Url::parse` and gives the scheme of the URL
/// (`Url::scheme`), or the parse error's message. The result is named, not
/// described: the URL standard's parsing rules are not restated here. Of a
/// successful parse it states one fact: where `input` opens with lower-case
/// ASCII letters and a `:`, those letters are the scheme (the parser reads
/// the scheme up to the first `:`, and `Url::scheme` gives it lower-cased).
#[verifier::external_body]
fn parse_url_scheme(input: &str) -> (r: Result<String, String>)
    ensures
        match r {
            Ok(s) => url_parse(input@) == Ok::<Seq<char>, Seq<char>>(s@),
            Err(e) => url_parse(input@) == Err::<Seq<char>, Seq<char>>(e@),
        },
        r is Ok && lowercase_scheme(input@) is Some ==> r->Ok_0@ == lowercase_scheme(input@)->Some_0,
{
    match url::Url::parse(input) {
        Ok(u) => Ok(u.scheme().to_string()),
        Err(e) => Err(e.to_string()),
    }
}

/// How a widget window loads its address.
#[derive(Debug, Clone, PartialEq, Eq)]
pub enum WidgetAddress {
    /// An `http`, `https` or `file` address, loaded as an external page.
    External(String),
    /// An `asset` or `widget` address, served by the application.
    CustomProtocol(String),
}

/// The kind of address a scheme gives, or `None` when it is not supported.
pub open spec fn scheme_is_external(scheme: Seq<char>) -> Option<bool> {
    if scheme == "http"@ || scheme == "https"@ || scheme == "file"@ {
        Some(true)
    } else if scheme == "asset"@ || scheme == "widget"@ {
        Some(false)
    } else {
        None
    }
}

/// How the window labelled `label` would open the normalised address `url`
/// whose parse gave `parsed`, or why it does not open.
pub open spec fn widget_address_for(label: Seq<char>, url: Seq<char>, window_exists: bool, parsed: Result<
    Seq<char>,
    Seq<char>,
>) -> Result<(bool, Seq<char>), Seq<char>> {
    if window_exists {
        Err("Widget '"@ + label + "' already exists"@)
    } else {
        match parsed {
            Err(e) => Err("Invalid widget URL '"@ + url + "': "@ + e),
            Ok(scheme) => match scheme_is_external(scheme) {
                Some(external) => Ok((external, url)),
                None => Err("Unsupported widget URL scheme: "@ + scheme),
            },
        }
    }
}

/// The view of a widget address, or of an error message.
pub open spec fn address_result_view(r: Result<WidgetAddress, String>) -> Result<(bool, Seq<char>), Seq<char>> {
    match r {
        Ok(WidgetAddress::External(u)) => Ok((true, u@)),
        Ok(WidgetAddress::CustomProtocol(u)) => Ok((false, u@)),
        Err(e) => Err(e@),
    }
}

/// Decides, given the result `parsed` of parsing the normalised address,
/// how the new window labelled `label` opens `url`.
pub fn classify_widget_address(label: &str, url: String, window_exists: bool, parsed: Result<String, String>) -> (r:
    Result<WidgetAddress, String>)
    ensures
        address_result_view(r) == widget_address_for(
            label@,
            url@,
            window_exists,
            match parsed {
                Ok(s) => Ok(s@),
                Err(e) => Err(e@),
            },
        ),
{
    if window_exists {
        return Err(concat3("Widget '", label, "' already exists"));
    }
    match parsed {
        Err(e) => {
            let head = concat3("Invalid widget URL '", url.as_str(), "': ");
            Err(concat2(head.as_str(), e.as_str()))
        },
        Ok(scheme) => {
            let s = scheme.as_str();
            let http = "http".to_string();
            let https = "https".to_string();
            let file = "file".to_string();
            let asset = "asset".to_string();
            let widget = "widget".to_string();
            if scheme == http || scheme == https || scheme == file {
                Ok(WidgetAddress::External(url))
            } else if scheme == asset || scheme == widget {
                Ok(WidgetAddress::CustomProtocol(url))
            } else {
                Err(concat2("Unsupported widget URL scheme: ", s))
            }
        },
    }
}

/// Whether the normalised address `url` is loaded as an external page.
pub open spec fn url_is_external(url: Seq<char>) -> bool {
    ||| has_prefix(url, "http://"@)
    ||| has_prefix(url, "https://"@)
    ||| has_prefix(url, "file:///"@)
}

/// Where `s` begins with `p`, and `p` begins with `n` lower-case ASCII
/// letters and a `:`, those letters are the scheme of `s`.
proof fn lemma_scheme_of_prefix(s: Seq<char>, p: Seq<char>, n: int)
    requires
        has_prefix(s, p),
        0 < n < p.len(),
        p[n] == ':',
        forall|j: int| 0 <= j < n ==> 'a' <= #[trigger] p[j] && p[j] <= 'z',
    ensures
        lowercase_scheme(s) == Some(p.take(n)),
{
    assert forall|j: int| 0 <= j <= n implies s[j] == p[j] by {
        assert(s[j] == s.take(p.len() as int)[j]);
    }
    lemma_first_index_unique(s, ':', n);
    assert(s.take(n) =~= p.take(n));
}

/// Every normalised address opens with the scheme of one of the known
/// prefixes, and that scheme is supported: external exactly for `http`,
/// `https` and `file`.
pub proof fn lemma_normalized_scheme(url: Seq<char>)
    ensures
        lowercase_scheme(normalized_widget_url(url)) is Some,
        scheme_is_external(lowercase_scheme(normalized_widget_url(url))->Some_0) == Some(
            url_is_external(normalized_widget_url(url)),
        ),
{
    reveal_strlit("widget://");
    reveal_strlit("asset://");
    reveal_strlit("http://");
    reveal_strlit("https://");
    reveal_strlit("file:///");
    reveal_strlit("widget://localhost/");
    reveal_strlit("widget");
    reveal_strlit("asset");
    reveal_strlit("http");
    reveal_strlit("https");
    reveal_strlit("file");
    let n = normalized_widget_url(url);
    if !known_prefix(url) {
        let p = "widget://localhost/"@;
        let r = replace_char(url, '\\', '/');
        assert(n == p + r);
        assert(n.take(p.len() as int) =~= p);
        assert(n.take(9) =~= "widget://"@) by {
            assert(n.take(9) =~= p.take(9));
        }
    }
    assert(known_prefix(n));
    if has_prefix(n, "widget://"@) {
        lemma_scheme_of_prefix(n, "widget://"@, 6);
        assert("widget://"@.take(6) =~= "widget"@);
        assert("widget"@ != "http"@ && "widget"@ != "https"@ && "widget"@ != "file"@ && "widget"@ == "widget"@);
        assert(!url_is_external(n)) by {
            assert(n[0] == "widget://"@[0]);
            if has_prefix(n, "http://"@) { assert(n[0] == "http://"@[0]); }
            if has_prefix(n, "https://"@) { assert(n[0] == "https://"@[0]); }
            if has_prefix(n, "file:///"@) { assert(n[0] == "file:///"@[0]); }
        }
    } else if has_prefix(n, "asset://"@) {
        lemma_scheme_of_prefix(n, "asset://"@, 5);
        assert("asset://"@.take(5) =~= "asset"@);
        assert("asset"@[0] != "https"@[0]);
        assert("asset"@ != "http"@ && "asset"@ != "https"@ && "asset"@ != "file"@);
        assert(!url_is_external(n)) by {
            assert(n[0] == "asset://"@[0]);
            if has_prefix(n, "http://"@) { assert(n[0] == "http://"@[0]); }
            if has_prefix(n, "https://"@) { assert(n[0] == "https://"@[0]); }
            if has_prefix(n, "file:///"@) { assert(n[0] == "file:///"@[0]); }
        }
    } else if has_prefix(n, "http://"@) {
        lemma_scheme_of_prefix(n, "http://"@, 4);
        assert("http://"@.take(4) =~= "http"@);
    } else if has_prefix(n, "https://"@) {
        lemma_scheme_of_prefix(n, "https://"@, 5);
        assert("https://"@.take(5) =~= "https"@);
        assert("https"@ != "http"@);
    } else {
        lemma_scheme_of_prefix(n, "file:///"@, 4);
        assert("file:///"@.take(4) =~= "file"@);
    }
}

/// Decides how a new widget window labelled `label` opens `url`: refused
/// when a window with that label exists, else the address is normalised,
/// parsed with `url::Url::parse` and classified by its scheme. A
/// normalised address that parses always opens: its scheme is never
/// unsupported.
pub fn resolve_widget_address(label: &str, url: &str, window_exists: bool) -> (r: Result<WidgetAddress, String>)
    ensures
        address_result_view(r) == widget_address_for(
            label@,
            normalized_widget_url(url@),
            window_exists,
            url_parse(normalized_widget_url(url@)),
        ),
        !window_exists && url_parse(normalized_widget_url(url@)) is Ok ==> address_result_view(r) == Ok::<
            (bool, Seq<char>),
            Seq<char>,
        >((url_is_external(normalized_widget_url(url@)), normalized_widget_url(url@))),
{
    if window_exists {
        return Err(concat3("Widget '", label, "' already exists"));
    }
    let normalized = normalize_widget_url(url);
    let parsed = parse_url_scheme(normalized.as_str());
    proof {
        lemma_normalized_scheme(url@);
    }
    classify_widget_address(label, normalized, false, parsed)
}

/// Whether `l` is the window of one of the enabled widgets of `ws`.
pub open spec fn window_of_enabled(ws: Seq<ConfigView>, l: LaunchView) -> bool {
    exists|i: int| 0 <= i < ws.len() && ws[i].enabled && l == #[trigger] launch_of(ws[i])
}

/// Starting the application opens exactly the windows of the enabled
/// widgets: each enabled widget's window is among them, and each of them
/// is the window of an enabled widget.
pub proof fn lemma_startup_opens_enabled(ws: Seq<ConfigView>)
    ensures
        forall|i: int| 0 <= i < ws.len() && ws[i].enabled ==> startup_windows(ws).contains(
            #[trigger] launch_of(ws[i]),
        ),
        forall|k: int| 0 <= k < startup_windows(ws).len() ==> window_of_enabled(ws, #[trigger] startup_windows(ws)[k]),
{
    broadcast use vstd::seq_lib::group_filter_ensures;
    let f = ws.filter(is_enabled());
    let out = startup_windows(ws);
    assert forall|i: int| 0 <= i < ws.len() && ws[i].enabled implies out.contains(#[trigger] launch_of(ws[i])) by {
        ws.lemma_filter_contains(is_enabled(), i);
        let m = choose|m: int| 0 <= m < f.len() && f[m] == ws[i];
        assert(out[m] == launch_of(ws[i]));
    }
    assert forall|k: int| 0 <= k < out.len() implies window_of_enabled(ws, #[trigger] out[k]) by {
        ws.lemma_filter_pred(is_enabled(), k);
        assert(f.contains(f[k]));
        ws.lemma_filter_contains_rev(is_enabled(), f[k]);
        let i = choose|i: int| 0 <= i < ws.len() && ws[i] == f[k];
        assert(ws[i].enabled && out[k] == launch_of(ws[i]));
    }
}

} // verus!
