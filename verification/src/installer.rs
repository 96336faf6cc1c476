//! Installing widget packs from GitHub repositories: reading the repository
//! address, describing the widgets a downloaded pack offers and naming the
//! widgets that get installed.

use vstd::prelude::*;
use crate::text::{
    after_first, before_first, chars_of, concat2, concat3, find_char, has_infix, has_prefix,
    lemma_first_index, replace_char, replace_char_in, starts_with_at, string_of, trim_bounds,
    trim_end_char, trim_end_char_bound, trim_end_pattern, trim_end_pattern_bound, trim_ws,
    lemma_first_index_unique, is_ws, trim_end_ws, trim_start_ws, has_suffix,
};

verus! {

/// The address every accepted repository URL starts with.
pub open spec fn github_prefix() -> Seq<char> {
    "https://github.com/"@
}

/// The suffix that is dropped from a repository name.
pub open spec fn git_suffix() -> Seq<char> {
    seq!['.', 'g', 'i', 't']
}

/// The part of a repository URL after the GitHub prefix, once surrounding
/// whitespace and trailing slashes are removed; `None` when the prefix is missing.
pub open spec fn github_repo_path(url: Seq<char>) -> Option<Seq<char>> {
    let t = trim_end_char(trim_ws(url), '/');
    if has_prefix(t, github_prefix()) {
        Some(t.skip(github_prefix().len() as int))
    } else {
        None
    }
}

/// The owner and repository a GitHub URL names, or the message that rejects it.
pub open spec fn parsed_github_url(url: Seq<char>) -> Result<(Seq<char>, Seq<char>), Seq<char>> {
    match github_repo_path(url) {
        None => Err("Invalid GitHub repository URL"@),
        Some(path) => {
            let owner = before_first(path, '/');
            if owner.len() == 0 {
                Err("Missing GitHub owner"@)
            } else {
                match after_first(path, '/') {
                    None => Err("Missing GitHub repository name"@),
                    Some(rest) => {
                        let repo = before_first(rest, '/');
                        if repo.len() == 0 {
                            Err("Missing GitHub repository name"@)
                        } else {
                            Ok((owner, trim_end_pattern(repo, git_suffix())))
                        }
                    },
                }
            }
        },
    }
}

/// The view of a pair of strings, or of an error message.
pub open spec fn pair_result_view(r: Result<(String, String), String>) -> Result<
    (Seq<char>, Seq<char>),
    Seq<char>,
> {
    match r {
        Ok((a, b)) => Ok((a@, b@)),
        Err(e) => Err(e@),
    }
}

/// Reads the owner and repository name out of a GitHub repository URL such as
/// `https://github.com/owner/repo.git/`.
pub fn parse_github_url(url: &str) -> (r: Result<(String, String), String>)
    ensures
        pair_result_view(r) == parsed_github_url(url@),
{
    let v = chars_of(url);
    let (b, e0) = trim_bounds(&v);
    let e = trim_end_char_bound(&v, b, e0, '/');
    assert(v@.subrange(b as int, e as int) == trim_end_char(trim_ws(url@), '/'));
    let prefix = chars_of("https://github.com/");
    if !starts_with_at(&v, b, e, &prefix) {
        return Err("Invalid GitHub repository URL".to_string());
    }
    let start = b + prefix.len();
    let ghost path = v@.subrange(start as int, e as int);
    assert(path == trim_end_char(trim_ws(url@), '/').skip(github_prefix().len() as int));
    let owner_end = find_char(&v, start, e, '/');
    proof {
        lemma_first_index(path, '/');
        assert(before_first(path, '/') == v@.subrange(start as int, owner_end as int));
    }
    if owner_end == start {
        return Err("Missing GitHub owner".to_string());
    }
    if owner_end == e {
        return Err("Missing GitHub repository name".to_string());
    }
    let rest_start = owner_end + 1;
    assert(after_first(path, '/') == Some(v@.subrange(rest_start as int, e as int)));
    let repo_end = find_char(&v, rest_start, e, '/');
    proof {
        let rest = v@.subrange(rest_start as int, e as int);
        lemma_first_index(rest, '/');
        assert(before_first(rest, '/') == v@.subrange(rest_start as int, repo_end as int));
    }
    if repo_end == rest_start {
        return Err("Missing GitHub repository name".to_string());
    }
    let suffix = vec!['.', 'g', 'i', 't'];
    assert(suffix@ == git_suffix());
    let repo_trimmed = trim_end_pattern_bound(&v, rest_start, repo_end, &suffix);
    Ok((string_of(&v, start, owner_end), string_of(&v, rest_start, repo_trimmed)))
}

/// The GitHub API address describing the repository `pack` of `author`.
pub open spec fn repo_info_url(author: Seq<char>, pack: Seq<char>) -> Seq<char> {
    "https://api.github.com/repos/"@ + author + "/"@ + pack
}

/// The GitHub API address describing the repository `pack` of `author`.
pub fn repo_info_address(author: &str, pack: &str) -> (r: String)
    ensures
        r@ == repo_info_url(author@, pack@),
{
    let head = concat3("https://api.github.com/repos/", author, "/");
    concat2(head.as_str(), pack)
}

/// The address of the zip archive of branch `branch` of the repository.
pub open spec fn repo_zip_url(author: Seq<char>, pack: Seq<char>, branch: Seq<char>) -> Seq<char> {
    "https://codeload.github.com/"@ + author + "/"@ + pack + "/zip/refs/heads/"@ + branch
}

/// The address of the zip archive of branch `branch` of the repository.
pub fn repo_zip_address(author: &str, pack: &str, branch: &str) -> (r: String)
    ensures
        r@ == repo_zip_url(author@, pack@, branch@),
{
    let head = concat3("https://codeload.github.com/", author, "/");
    let middle = concat3(head.as_str(), pack, "/zip/refs/heads/");
    concat2(middle.as_str(), branch)
}

/// The id a widget of a pack is installed under: `author/pack/name`.
pub open spec fn pack_widget_id(author: Seq<char>, pack: Seq<char>, name: Seq<char>) -> Seq<char> {
    author + "/"@ + pack + "/"@ + name
}

/// The id a widget of a pack is installed under.
pub fn pack_widget_address(author: &str, pack: &str, name: &str) -> (r: String)
    ensures
        r@ == pack_widget_id(author@, pack@, name@),
{
    let head = concat3(author, "/", pack);
    concat3(head.as_str(), "/", name)
}

/// Whether a folder holds a widget: both its page and its description are files.
pub fn is_widget_dir(has_index_file: bool, has_widget_json_file: bool) -> (b: bool)
    ensures
        b == (has_index_file && has_widget_json_file),
{
    has_index_file && has_widget_json_file
}

/// What the search for widgets in an unpacked repository does with one
/// entry of a folder.
#[derive(Debug, Clone, PartialEq, Eq)]
pub enum FolderStep {
    /// Pass over it: it is no folder.
    Skip,
    /// Offer it as a widget; its subfolders are not searched.
    Candidate,
    /// Search the folders inside it.
    Descend,
}

/// What the search for widgets does with an entry that is a folder when
/// `is_dir`, and a widget folder when `is_widget`.
pub fn folder_step(is_dir: bool, is_widget: bool) -> (s: FolderStep)
    ensures
        !is_dir ==> s == FolderStep::Skip,
        is_dir && is_widget ==> s == FolderStep::Candidate,
        is_dir && !is_widget ==> s == FolderStep::Descend,
{
    if !is_dir {
        FolderStep::Skip
    } else if is_widget {
        FolderStep::Candidate
    } else {
        FolderStep::Descend
    }
}

/// The message of the error `serde_json::from_str::<serde_json::Value>`
/// gives for `content`, or `None` when it parses.
pub uninterp spec fn json_parse_error(content: Seq<char>) -> Option<Seq<char>>;

/// The string at member `key` of the JSON value `content` parses to
/// (`Value::get` then `Value::as_str`), when there is one.
pub uninterp spec fn json_str_member(content: Seq<char>, key: Seq<char>) -> Option<Seq<char>>;

/// The view of an optional string.
pub open spec fn opt_view(o: Option<String>) -> Option<Seq<char>> {
    match o {
        Some(s) => Some(s@),
        None => None,
    }
}

/// Parses `content` with `serde_json::from_str` into a `serde_json::Value`
/// and reads the string at member `key` (`Value::get`, `Value::as_str`).
/// Both results are named, not described: JSON's grammar and serde_json's
/// error texts are not restated here.
#[verifier::external_body]
fn json_string_member(content: &str, key: &str) -> (r: Result<Option<String>, String>)
    ensures
        match r {
            Ok(m) => json_parse_error(content@) is None && opt_view(m) == json_str_member(content@, key@),
            Err(e) => json_parse_error(content@) == Some(e@),
        },
{
    match serde_json::from_str::<serde_json::Value>(content) {
        Ok(v) => Ok(v.get(key).and_then(serde_json::Value::as_str).map(String::from)),
        Err(e) => Err(e.to_string()),
    }
}

/// A widget that a downloaded pack offers.
#[derive(Debug, Clone, PartialEq, Eq)]
pub struct WidgetCandidate {
    pub id: String,
    pub name: String,
    pub description: String,
    pub author: Option<String>,
    pub relative_path: String,
}

/// What a widget candidate holds.
#[verifier::ext_equal]
pub struct CandidateView {
    pub id: Seq<char>,
    pub name: Seq<char>,
    pub description: Seq<char>,
    pub author: Option<Seq<char>>,
    pub relative_path: Seq<char>,
}

impl View for WidgetCandidate {
    type V = CandidateView;

    open spec fn view(&self) -> CandidateView {
        CandidateView {
            id: self.id@,
            name: self.name@,
            description: self.description@,
            author: opt_view(self.author),
            relative_path: self.relative_path@,
        }
    }
}

/// What reading member `key` of the `widget.json` text `content` gives:
/// the string there, if any, or the parse error's message.
pub open spec fn json_member(content: Seq<char>, key: Seq<char>) -> Result<Option<Seq<char>>, Seq<char>> {
    match json_parse_error(content) {
        Some(e) => Err(e),
        None => Ok(json_str_member(content, key)),
    }
}

/// The error reported for a `widget.json` that is no JSON, in the folder
/// shown as `dir_display`.
pub open spec fn invalid_widget_json(dir_display: Seq<char>, e: Seq<char>) -> Seq<char> {
    "Invalid widget.json in "@ + dir_display + ": "@ + e
}

/// The candidate offered by the widget folder `dir_name` of pack `pack` by
/// `author`, found at `relative_path` below the repository, given what
/// reading the members `name`, `description` and `author` of its
/// `widget.json` gave: the name falls back to the folder's name, the
/// description to nothing; the first read that failed is reported for the
/// folder, shown as `dir_display`.
pub open spec fn candidate_from(
    author: Seq<char>,
    pack: Seq<char>,
    dir_name: Seq<char>,
    relative_path: Seq<char>,
    dir_display: Seq<char>,
    name_member: Result<Option<Seq<char>>, Seq<char>>,
    description_member: Result<Option<Seq<char>>, Seq<char>>,
    author_member: Result<Option<Seq<char>>, Seq<char>>,
) -> Result<CandidateView, Seq<char>> {
    match (name_member, description_member, author_member) {
        (Err(e), _, _) => Err(invalid_widget_json(dir_display, e)),
        (Ok(_), Err(e), _) => Err(invalid_widget_json(dir_display, e)),
        (Ok(_), Ok(_), Err(e)) => Err(invalid_widget_json(dir_display, e)),
        (Ok(n), Ok(d), Ok(a)) => Ok(
            CandidateView {
                id: pack_widget_id(author, pack, dir_name),
                name: match n {
                    Some(n) => n,
                    None => dir_name,
                },
                description: match d {
                    Some(d) => d,
                    None => Seq::empty(),
                },
                author: a,
                relative_path: replace_char(relative_path, '\\', '/'),
            },
        ),
    }
}

/// The candidate offered by the widget folder `dir_name` of pack `pack` by
/// `author`, found at `relative_path` below the repository, whose
/// `widget.json` holds `content`.
pub open spec fn candidate_for(
    author: Seq<char>,
    pack: Seq<char>,
    dir_name: Seq<char>,
    relative_path: Seq<char>,
    content: Seq<char>,
    dir_display: Seq<char>,
) -> Result<CandidateView, Seq<char>> {
    candidate_from(
        author,
        pack,
        dir_name,
        relative_path,
        dir_display,
        json_member(content, "name"@),
        json_member(content, "description"@),
        json_member(content, "author"@),
    )
}

/// The view of a candidate, or of an error message.
pub open spec fn candidate_result_view(r: Result<WidgetCandidate, String>) -> Result<CandidateView, Seq<char>> {
    match r {
        Ok(c) => Ok(c@),
        Err(e) => Err(e@),
    }
}

/// The view of what reading a member of a JSON text gave.
pub open spec fn member_view(r: Result<Option<String>, String>) -> Result<Option<Seq<char>>, Seq<char>> {
    match r {
        Ok(m) => Ok(opt_view(m)),
        Err(e) => Err(e@),
    }
}

/// The error for a `widget.json` that is no JSON.
fn invalid_widget_json_error(dir_display: &str, e: &str) -> (r: String)
    ensures
        r@ == invalid_widget_json(dir_display@, e@),
{
    let head = concat3("Invalid widget.json in ", dir_display, ": ");
    concat2(head.as_str(), e)
}

/// The candidate offered by a widget folder of a downloaded pack, given
/// what reading the members `name`, `description` and `author` of its
/// `widget.json` gave.
pub fn candidate_from_members(
    author: &str,
    pack: &str,
    dir_name: &str,
    relative_path: &str,
    dir_display: &str,
    name_member: Result<Option<String>, String>,
    description_member: Result<Option<String>, String>,
    author_member: Result<Option<String>, String>,
) -> (r: Result<WidgetCandidate, String>)
    ensures
        candidate_result_view(r) == candidate_from(
            author@,
            pack@,
            dir_name@,
            relative_path@,
            dir_display@,
            member_view(name_member),
            member_view(description_member),
            member_view(author_member),
        ),
{
    let name = match name_member {
        Ok(Some(n)) => n,
        Ok(None) => dir_name.to_string(),
        Err(e) => return Err(invalid_widget_json_error(dir_display, e.as_str())),
    };
    let description = match description_member {
        Ok(Some(d)) => d,
        Ok(None) => String::new(),
        Err(e) => return Err(invalid_widget_json_error(dir_display, e.as_str())),
    };
    let widget_author = match author_member {
        Ok(a) => a,
        Err(e) => return Err(invalid_widget_json_error(dir_display, e.as_str())),
    };
    Ok(
        WidgetCandidate {
            id: pack_widget_address(author, pack, dir_name),
            name: name,
            description: description,
            author: widget_author,
            relative_path: replace_char_in(relative_path, '\\', '/'),
        },
    )
}

/// The candidate offered by a widget folder of a downloaded pack, whose
/// `widget.json` holds `content`.
pub fn widget_candidate(
    author: &str,
    pack: &str,
    dir_name: &str,
    relative_path: &str,
    content: &str,
    dir_display: &str,
) -> (r: Result<WidgetCandidate, String>)
    ensures
        candidate_result_view(r) == candidate_for(
            author@,
            pack@,
            dir_name@,
            relative_path@,
            content@,
            dir_display@,
        ),
{
    let name_member = json_string_member(content, "name");
    let description_member = json_string_member(content, "description");
    let author_member = json_string_member(content, "author");
    candidate_from_members(
        author,
        pack,
        dir_name,
        relative_path,
        dir_display,
        name_member,
        description_member,
        author_member,
    )
}

/// A downloaded pack, waiting for the user's choice of widgets.
#[derive(Debug, Clone, PartialEq, Eq)]
pub struct DownloadedPack {
    /// Names the folder the pack was unpacked into.
    pub token: String,
    pub author: String,
    pub pack: String,
    pub widgets: Vec<WidgetCandidate>,
}

/// The downloaded pack offering `widgets`, refused when it offers none.
pub fn downloaded_pack(token: String, author: String, pack: String, widgets: Vec<WidgetCandidate>) -> (r: Result<
    DownloadedPack,
    String,
>)
    ensures
        widgets.len() == 0 <==> r is Err,
        r matches Err(e) ==> e@ == "No widgets found in repository"@,
        r matches Ok(p) ==> p.token@ == token@ && p.author@ == author@ && p.pack@ == pack@
            && p.widgets@ == widgets@,
{
    if widgets.len() == 0 {
        return Err("No widgets found in repository".to_string());
    }
    Ok(DownloadedPack { token, author, pack, widgets })
}

/// The first of the folders at the top of an unpacked archive, or the error
/// `missing` when there is none.
pub fn first_folder(folders: Vec<String>, missing: &str) -> (r: Result<String, String>)
    ensures
        folders.len() > 0 ==> (r matches Ok(f) && f@ == folders@[0]@),
        folders.len() == 0 ==> (r matches Err(e) && e@ == missing@),
{
    if folders.len() == 0 {
        return Err(missing.to_string());
    }
    let mut folders = folders;
    let first = folders.swap_remove(0);
    Ok(first)
}

/// The user's choice of widgets from a downloaded pack.
#[derive(Debug, Clone, PartialEq, Eq)]
pub struct InstallWidgetsRequest {
    pub token: String,
    pub author: String,
    pub pack: String,
    /// The chosen widgets, by their path relative to the repository.
    pub widgets: Vec<String>,
}

/// Refuses a choice without any widget, or one whose download is gone.
pub fn check_install_request(request: &InstallWidgetsRequest, download_exists: bool) -> (r: Result<(), String>)
    ensures
        request.widgets.len() == 0 ==> (r matches Err(e) && e@ == "No widgets selected"@),
        request.widgets.len() > 0 && !download_exists ==> (r matches Err(e) && e@ == "Downloaded pack not found"@),
        r is Ok <==> request.widgets.len() > 0 && download_exists,
{
    if request.widgets.len() == 0 {
        return Err("No widgets selected".to_string());
    }
    if !download_exists {
        return Err("Downloaded pack not found".to_string());
    }
    Ok(())
}

/// Whether a widget id may name a folder to delete: it is not empty and
/// holds neither `..` nor a backslash.
pub open spec fn valid_widget_id(id: Seq<char>) -> bool {
    id.len() > 0 && !has_infix(id, seq!['.', '.']) && !id.contains('\\')
}

/// Refuses a widget id that is empty, climbs out with `..` or holds a backslash.
pub fn check_widget_id(id: &str) -> (r: Result<(), String>)
    ensures
        r is Ok <==> valid_widget_id(id@),
        r matches Err(e) ==> e@ == "Invalid widget id"@,
{
    let v = chars_of(id);
    let mut i: usize = 0;
    while i < v.len()
        invariant
            i <= v.len(),
            v@ == id@,
            forall|j: int| 0 <= j < i ==> v@[j] != '\\',
            forall|j: int| 0 <= j < i && j + 2 <= v.len() ==> #[trigger] v@.subrange(j, j + 2) != seq![
                '.',
                '.',
            ],
        decreases v.len() - i,
    {
        if v[i] == '\\' || (i + 1 < v.len() && v[i] == '.' && v[i + 1] == '.') {
            proof {
                if v[i as int] != '\\' {
                    assert(v@.subrange(i as int, i + 2) =~= seq!['.', '.']);
                }
            }
            return Err("Invalid widget id".to_string());
        }
        proof {
            if i + 2 <= v.len() {
                let pair = v@.subrange(i as int, i + 2);
                assert(pair[0] == v@[i as int] && pair[1] == v@[i + 1]);
                if pair == seq!['.', '.'] {
                    assert(pair[0] == seq!['.', '.'][0]);
                    assert(pair[1] == seq!['.', '.'][1]);
                }
            }
        }
        i = i + 1;
    }
    proof {
        if id@.contains('\\') {
            let k = choose|k: int| 0 <= k < id@.len() && id@[k] == '\\';
            assert(v@[k] == '\\');
        }
    }
    if v.len() == 0 {
        return Err("Invalid widget id".to_string());
    }
    Ok(())
}

/// The name of a widget folder, refused when the path has none.
pub fn widget_dir_name(name: Option<String>) -> (r: Result<String, String>)
    ensures
        name matches Some(n) ==> (r matches Ok(m) && m@ == n@),
        name is None ==> (r matches Err(e) && e@ == "Invalid widget directory"@),
{
    match name {
        Some(n) => Ok(n),
        None => Err("Invalid widget directory".to_string()),
    }
}

/// What installing one chosen widget gives: `None` when it is skipped,
/// because its path is absolute or climbs out with `..`, or because it is no
/// widget folder; else the id it is installed under, from the folder's name.
pub fn chosen_widget_id(author: &str, pack: &str, path_is_safe: bool, is_widget: bool, folder_name: Option<String>) -> (r:
    Result<Option<String>, String>)
    ensures
        !(path_is_safe && is_widget) ==> r matches Ok(None),
        path_is_safe && is_widget && folder_name is None ==> (r matches Err(e) && e@ == "Invalid widget directory"@),
        path_is_safe && is_widget && folder_name is Some ==> (r matches Ok(Some(id)) && id@ == pack_widget_id(
            author@,
            pack@,
            folder_name->0@,
        )),
{
    if !path_is_safe || !is_widget {
        return Ok(None);
    }
    let name = widget_dir_name(folder_name)?;
    Ok(Some(pack_widget_address(author, pack, name.as_str())))
}

/// The repository URL `https://github.com/{owner}/{repo}` reads back as
/// `owner` and `repo`, whenever neither holds a slash, both are non-empty,
/// the repository name does not end in whitespace and is not suffixed
/// `.git`.
pub proof fn lemma_github_url_round_trip(owner: Seq<char>, repo: Seq<char>)
    requires
        owner.len() > 0,
        repo.len() > 0,
        !owner.contains('/'),
        !repo.contains('/'),
        !is_ws(repo.last()),
        !has_suffix(repo, git_suffix()),
    ensures
        parsed_github_url(github_prefix() + owner + "/"@ + repo) == Ok::<
            (Seq<char>, Seq<char>),
            Seq<char>,
        >((owner, repo)),
{
    reveal_strlit("https://github.com/");
    reveal_strlit("/");
    let p = github_prefix();
    let url = p + owner + "/"@ + repo;
    assert(url.last() == repo.last());
    assert(trim_end_ws(url) == url);
    assert(url[0] == 'h');
    assert(trim_start_ws(url) == url);
    assert(trim_ws(url) == url);
    assert(repo.last() != '/') by {
        assert(repo.contains(repo.last()) ==> repo.last() != '/');
        assert(repo[repo.len() - 1] == repo.last());
    }
    assert(trim_end_char(url, '/') == url);
    assert(url.take(p.len() as int) == p);
    let path = url.skip(p.len() as int);
    assert(path == owner + "/"@ + repo);
    assert forall|j: int| 0 <= j < owner.len() implies path[j] != '/' by {
        assert(path[j] == owner[j]);
        if owner[j] == '/' {
            assert(owner.contains('/'));
        }
    }
    assert(path[owner.len() as int] == '/');
    lemma_first_index_unique(path, '/', owner.len() as int);
    assert(before_first(path, '/') == owner);
    assert(path.skip(owner.len() as int + 1) == repo);
    assert forall|j: int| 0 <= j < repo.len() implies repo[j] != '/' by {
        if repo[j] == '/' {
            assert(repo.contains('/'));
        }
    }
    lemma_first_index_unique(repo, '/', repo.len() as int);
    assert(before_first(repo, '/') == repo);
    assert(trim_end_pattern(repo, git_suffix()) == repo);
}

/// Neither `s` has `..` nor a backslash.
pub open spec fn plain_part(s: Seq<char>) -> bool {
    !has_infix(s, seq!['.', '.']) && !s.contains('\\')
}

/// Two dots that stand side by side in `a + "/" + b` stand side by side in
/// `a` or in `b`.
pub proof fn lemma_joined_plain(a: Seq<char>, b: Seq<char>)
    requires
        plain_part(a),
        plain_part(b),
    ensures
        plain_part(a + "/"@ + b),
{
    reveal_strlit("/");
    let j = a + "/"@ + b;
    let n = a.len() as int;
    assert(j[n] == '/');
    assert forall|k: int| 0 <= k && k + 2 <= j.len() implies #[trigger] j.subrange(k, k + 2) != seq!['.', '.'] by {
        if j.subrange(k, k + 2) == seq!['.', '.'] {
            assert(j[k] == '.' && j[k + 1] == '.') by {
                assert(j.subrange(k, k + 2)[0] == seq!['.', '.'][0]);
                assert(j.subrange(k, k + 2)[1] == seq!['.', '.'][1]);
            }
            if k + 1 < n {
                assert(j[k] == a[k] && j[k + 1] == a[k + 1]);
                assert(a.subrange(k, k + 2) =~= seq!['.', '.']);
                assert(has_infix(a, seq!['.', '.']));
            } else if k > n {
                assert(j[k] == b[k - n - 1] && j[k + 1] == b[k - n]);
                let i = k - n - 1;
                assert(b.subrange(i, i + 2) =~= seq!['.', '.']);
                assert(has_infix(b, seq!['.', '.']));
            } else {
                assert(j[k] == '/' || j[k + 1] == '/');
            }
        }
    }
    assert forall|k: int| 0 <= k < j.len() implies j[k] != '\\' by {
        if k < n {
            assert(j[k] == a[k]);
            if a[k] == '\\' {
                assert(a.contains('\\'));
            }
        } else if k > n {
            assert(j[k] == b[k - n - 1]);
            if b[k - n - 1] == '\\' {
                assert(b.contains('\\'));
            }
        }
    }
}

/// Every widget that installing a pack reports can be removed by that id,
/// when the author, the pack and the folder name are non-empty and hold
/// neither `..` nor a backslash.
pub proof fn lemma_installed_id_removable(author: Seq<char>, pack: Seq<char>, name: Seq<char>)
    requires
        author.len() > 0,
        plain_part(author),
        plain_part(pack),
        plain_part(name),
    ensures
        valid_widget_id(pack_widget_id(author, pack, name)),
{
    lemma_joined_plain(author, pack);
    lemma_joined_plain(author + "/"@ + pack, name);
}

/// The id under which a pack widget is installed is the id the manifest
/// gives the installed folder `author/pack/name`, whichever separator the
/// platform writes between its parts.
pub proof fn lemma_installed_id_is_manifest_id(author: Seq<char>, pack: Seq<char>, name: Seq<char>, sep: char)
    requires
        sep == '/' || sep == '\\',
        !author.contains('\\'),
        !pack.contains('\\'),
        !name.contains('\\'),
    ensures
        crate::manifest::widget_id_of(author + seq![sep] + pack + seq![sep] + name) == pack_widget_id(
            author,
            pack,
            name,
        ),
{
    reveal_strlit("/");
    let path = author + seq![sep] + pack + seq![sep] + name;
    let id = pack_widget_id(author, pack, name);
    let r = replace_char(path, '\\', '/');
    let a = author.len() as int;
    let p = pack.len() as int;
    assert(r.len() == id.len());
    assert forall|k: int| 0 <= k < r.len() implies r[k] == id[k] by {
        if k < a {
            assert(path[k] == author[k]);
            if author[k] == '\\' {
                assert(author.contains('\\'));
            }
        } else if k == a {
        } else if k < a + 1 + p {
            assert(path[k] == pack[k - a - 1]);
            if pack[k - a - 1] == '\\' {
                assert(pack.contains('\\'));
            }
        } else if k == a + 1 + p {
        } else {
            assert(path[k] == name[k - a - p - 2]);
            if name[k - a - p - 2] == '\\' {
                assert(name.contains('\\'));
            }
        }
    }
    assert(r =~= id);
}

} // verus!
