//! Source-specific scanners: each detector turns the text that one external
//! inventory source prints into candidate change records.
//!
//! Running the external tool is the caller's job; every function here is a
//! pure parser from the tool's output (plus the system description and a
//! timestamp) to records. A detector whose tool failed contributes the empty
//! output, which parses to no records.

use vstd::prelude::*;
use crate::columns::spec_split_columns;
use crate::columns::split_columns;
use crate::columns::strings_view;
use crate::domain::CoreError;
use crate::domain::CoreResult;
use crate::domain::DetectedChange;
use crate::domain::DetectedChangeV;
use crate::domain::EntryType;
use crate::domain::SystemInfo;
use crate::domain::SystemInfoV;
use crate::domain::Tag;
use crate::domain::tags_view;
use crate::ids::new_id;
use crate::text::drop_trailing;
use crate::text::first_sub_index;
use crate::text::has_content;
use crate::text::has_prefix;
use crate::text::has_sub;
use crate::text::has_suffix;
use crate::text::last_char_index;
use crate::text::lemma_first_sub_index;
use crate::text::lemma_last_char_index;
use crate::text::line_views;
use crate::text::lines_of;
use crate::text::lower_of;
use crate::text::lowercase;
use crate::text::split_char_of;
use crate::text::split_on_char;
use crate::text::split_lines;
use crate::text::str_to_chars;
use crate::text::chars_to_string;
use crate::text::chars_subrange;
use crate::text::find_sub;
use crate::text::rfind_char;
use crate::text::take_token;
use crate::text::token_of;
use crate::text::trim_chars;
use crate::text::trim_end_chars;
use crate::text::trim_of;

verus! {

/// The view of an optional string.
pub open spec fn opt_view(p: Option<String>) -> Option<Seq<char>> {
    match p {
        Some(s) => Some(s@),
        None => None,
    }
}

/// The fields a detector stamps on every record it emits.
pub open spec fn stamped(
    c: DetectedChangeV,
    source: Seq<char>,
    ty: EntryType,
    tag: Seq<char>,
    system: SystemInfoV,
    now: Seq<char>,
) -> bool {
    &&& c.source == source
    &&& c.entry_type == ty
    &&& c.tags == seq![tag]
    &&& c.system == system
    &&& c.detected_at == now
}

/// Build one candidate record with a fresh identifier.
fn make_change(
    title: String,
    cmd: String,
    path: Option<String>,
    source: &str,
    ty: EntryType,
    tag: &Tag,
    system: &SystemInfo,
    now: &str,
) -> (c: DetectedChange)
    ensures
        c@.title == title@,
        c@.cmd == cmd@,
        c@.path == opt_view(path),
        stamped(c@, source@, ty, tag@, system@, now@),
{
    let tags = vec![tag.clone()];
    proof {
        assert(tags_view(tags@) =~= seq![tag@]);
    }
    DetectedChange {
        id: new_id(),
        path,
        title,
        entry_type: ty,
        source: String::from_str(source),
        cmd: String::from_str(cmd.as_str()),
        system: system.clone(),
        detected_at: String::from_str(now),
        tags,
    }
}

/// Make a tag from a label with visible text.
fn make_tag(label: &str) -> (t: Tag)
    requires
        has_content(label@),
    ensures
        t@ == label@,
{
    match Tag::new(String::from_str(label)) {
        Ok(t) => t,
        Err(_) => vstd::pervasive::unreached(),
    }
}

/// Concatenate three string slices.
fn concat3(a: &str, b: &str, c: &str) -> (r: String)
    ensures
        r@ == a@ + b@ + c@,
{
    let mut v = str_to_chars(a);
    let mut w = str_to_chars(b);
    let mut x = str_to_chars(c);
    v.append(&mut w);
    v.append(&mut x);
    let r = chars_to_string(&v);
    r
}

/// One record per title, with the command synthesized as
/// `prefix + title + suffix` and no origin path.
fn build_changes(
    titles: &Vec<String>,
    source: &str,
    prefix: &str,
    suffix: &str,
    ty: EntryType,
    tag: &Tag,
    system: &SystemInfo,
    now: &str,
) -> (r: Vec<DetectedChange>)
    ensures
        r@.len() == titles@.len(),
        forall|i: int|
            0 <= i < r@.len() ==> {
                let c = (#[trigger] r@[i])@;
                &&& c.title == titles@[i]@
                &&& c.cmd == prefix@ + titles@[i]@ + suffix@
                &&& c.path is None
                &&& stamped(c, source@, ty, tag@, system@, now@)
            },
{
    let mut r: Vec<DetectedChange> = Vec::new();
    let mut i: usize = 0;
    while i < titles.len()
        invariant
            0 <= i <= titles@.len(),
            r@.len() == i,
            forall|k: int|
                0 <= k < i ==> {
                    let c = (#[trigger] r@[k])@;
                    &&& c.title == titles@[k]@
                    &&& c.cmd == prefix@ + titles@[k]@ + suffix@
                    &&& c.path is None
                    &&& stamped(c, source@, ty, tag@, system@, now@)
                },
        decreases titles@.len() - i,
    {
        let title = titles[i].clone();
        let cmd = concat3(prefix, title.as_str(), suffix);
        let c = make_change(title, cmd, None, source, ty, tag, system, now);
        r.push(c);
        i = i + 1;
    }
    r
}

/// The trimmed pieces with visible text, in order.
pub open spec fn visible_trimmed(pieces: Seq<Seq<char>>) -> Seq<Seq<char>>
    decreases pieces.len(),
{
    if pieces.len() == 0 {
        Seq::empty()
    } else {
        let t = trim_of(pieces[0]);
        let rest = visible_trimmed(pieces.drop_first());
        if t.len() > 0 {
            seq![t] + rest
        } else {
            rest
        }
    }
}

/// Trim every piece and keep those with visible text.
pub fn extract_visible_trimmed(pieces: &Vec<Vec<char>>) -> (r: Vec<String>)
    ensures
        strings_view(r@) == visible_trimmed(line_views(pieces@)),
{
    let ghost all = line_views(pieces@);
    let mut r: Vec<String> = Vec::new();
    let mut i: usize = 0;
    proof {
        assert(all.subrange(0, all.len() as int) =~= all);
        assert(strings_view(r@) =~= Seq::<Seq<char>>::empty());
    }
    while i < pieces.len()
        invariant
            0 <= i <= pieces@.len(),
            all == line_views(pieces@),
            strings_view(r@) + visible_trimmed(all.subrange(i as int, all.len() as int))
                == visible_trimmed(all),
        decreases pieces@.len() - i,
    {
        let ghost rest = all.subrange(i as int, all.len() as int);
        let ghost r0 = strings_view(r@);
        proof {
            assert(rest[0] == pieces@[i as int]@);
            assert(rest.drop_first() =~= all.subrange(i + 1 as int, all.len() as int));
        }
        let t = trim_chars(&pieces[i]);
        if t.len() > 0 {
            let s = chars_to_string(&t);
            r.push(s);
            proof {
                assert(strings_view(r@) =~= r0.push(trim_of(rest[0])));
                assert(r0.push(trim_of(rest[0])) + visible_trimmed(rest.drop_first()) =~= r0 + (
                seq![trim_of(rest[0])] + visible_trimmed(rest.drop_first())));
            }
        }
        i = i + 1;
    }
    proof {
        assert(all.subrange(all.len() as int, all.len() as int) =~= Seq::<Seq<char>>::empty());
        assert(strings_view(r@) + Seq::<Seq<char>>::empty() =~= strings_view(r@));
    }
    r
}

/// The trimmed nonempty lines of the text.
pub open spec fn simple_titles(s: Seq<char>) -> Seq<Seq<char>> {
    visible_trimmed(lines_of(s))
}

/// Decide whether the lowercased text begins with the pattern.
fn lower_has_prefix(t: &Vec<char>, pat: &str) -> (r: bool)
    ensures
        r == has_prefix(lower_of(t@), pat@),
{
    let s = chars_to_string(t);
    let low = lowercase(s.as_str());
    let lv = str_to_chars(low.as_str());
    let pv = str_to_chars(pat);
    crate::text::starts_with_chars(&lv, &pv)
}

/// Decide whether the lowercased text contains the pattern.
fn lower_contains(t: &Vec<char>, pat: &str) -> (r: bool)
    requires
        pat@.len() >= 1,
    ensures
        r == has_sub(lower_of(t@), pat@),
{
    let s = chars_to_string(t);
    let low = lowercase(s.as_str());
    let lv = str_to_chars(low.as_str());
    let pv = str_to_chars(pat);
    crate::text::contains_sub(&lv, &pv)
}

/// The first whitespace-delimited token of each trimmed nonempty line that
/// the skip rule keeps.
pub open spec fn token_titles(
    lines: Seq<Seq<char>>,
    skip: spec_fn(Seq<char>) -> bool,
) -> Seq<Seq<char>>
    decreases lines.len(),
{
    if lines.len() == 0 {
        Seq::empty()
    } else {
        let t = trim_of(lines[0]);
        let rest = token_titles(lines.drop_first(), skip);
        if t.len() == 0 || skip(t) {
            rest
        } else {
            seq![token_of(t)] + rest
        }
    }
}

/// No line is skipped beyond blank ones.
pub open spec fn keep_all(t: Seq<char>) -> bool {
    false
}

/// A snap header line: the lowercased line begins with `name`.
pub open spec fn snap_header(t: Seq<char>) -> bool {
    has_prefix(lower_of(t), "name"@)
}

/// A chocolatey banner or summary line.
pub open spec fn choco_header(t: Seq<char>) -> bool {
    has_prefix(lower_of(t), "chocolatey"@) || has_sub(lower_of(t), "packages installed"@)
}

/// A scoop header line.
pub open spec fn scoop_header(t: Seq<char>) -> bool {
    has_prefix(lower_of(t), "installed"@) || has_prefix(lower_of(t), "name"@)
}

/// Which header rule an extraction applies.
enum HeaderRule {
    KeepAll,
    Snap,
    Choco,
    Scoop,
}

impl HeaderRule {
    /// The skip predicate this rule stands for.
    spec fn skip_spec(&self) -> spec_fn(Seq<char>) -> bool {
        match self {
            HeaderRule::KeepAll => |t: Seq<char>| keep_all(t),
            HeaderRule::Snap => |t: Seq<char>| snap_header(t),
            HeaderRule::Choco => |t: Seq<char>| choco_header(t),
            HeaderRule::Scoop => |t: Seq<char>| scoop_header(t),
        }
    }

    /// Decide the skip predicate on a trimmed line.
    fn skip(&self, t: &Vec<char>) -> (r: bool)
        ensures
            r == (self.skip_spec())(t@),
    {
        match self {
            HeaderRule::KeepAll => false,
            HeaderRule::Snap => lower_has_prefix(t, "name"),
            HeaderRule::Choco => {
                let a = lower_has_prefix(t, "chocolatey");
                if a {
                    true
                } else {
                    proof {
                        reveal_strlit("packages installed");
                    }
                    lower_contains(t, "packages installed")
                }
            },
            HeaderRule::Scoop => {
                let a = lower_has_prefix(t, "installed");
                if a {
                    true
                } else {
                    lower_has_prefix(t, "name")
                }
            },
        }
    }
}

/// Extract the first token of each kept line.
fn extract_token_titles(output: &str, rule: HeaderRule) -> (r: Vec<String>)
    ensures
        strings_view(r@) == token_titles(lines_of(output@), rule.skip_spec()),
{
    let ghost skip = rule.skip_spec();
    let v = str_to_chars(output);
    let lines = split_lines(&v);
    let ghost all = line_views(lines@);
    let mut r: Vec<String> = Vec::new();
    let mut i: usize = 0;
    proof {
        assert(all.subrange(0, all.len() as int) =~= all);
        assert(strings_view(r@) =~= Seq::<Seq<char>>::empty());
    }
    while i < lines.len()
        invariant
            0 <= i <= lines@.len(),
            all == line_views(lines@),
            skip == rule.skip_spec(),
            strings_view(r@) + token_titles(all.subrange(i as int, all.len() as int), skip)
                == token_titles(all, skip),
        decreases lines@.len() - i,
    {
        let ghost rest = all.subrange(i as int, all.len() as int);
        let ghost r0 = strings_view(r@);
        proof {
            assert(rest[0] == lines@[i as int]@);
            assert(rest.drop_first() =~= all.subrange(i + 1 as int, all.len() as int));
        }
        let t = trim_chars(&lines[i]);
        if t.len() > 0 && !rule.skip(&t) {
            let tok = take_token(&t);
            let s = chars_to_string(&tok);
            r.push(s);
            proof {
                assert(strings_view(r@) =~= r0.push(token_of(trim_of(rest[0]))));
                assert(r0.push(token_of(trim_of(rest[0]))) + token_titles(rest.drop_first(), skip)
                    =~= r0 + (seq![token_of(trim_of(rest[0]))] + token_titles(
                    rest.drop_first(),
                    skip,
                )));
            }
        }
        i = i + 1;
    }
    proof {
        assert(all.subrange(all.len() as int, all.len() as int) =~= Seq::<Seq<char>>::empty());
        assert(strings_view(r@) + Seq::<Seq<char>>::empty() =~= strings_view(r@));
    }
    r
}

/// The text after the last slash, or the whole text without one.
pub open spec fn after_last_slash(t: Seq<char>) -> Seq<char> {
    if last_char_index(t, '/') >= 0 {
        t.subrange(last_char_index(t, '/') + 1, t.len() as int)
    } else {
        t
    }
}

/// The npm package name of each trimmed nonempty line: the path segment
/// after the last slash.
pub open spec fn npm_titles(lines: Seq<Seq<char>>) -> Seq<Seq<char>>
    decreases lines.len(),
{
    if lines.len() == 0 {
        Seq::empty()
    } else {
        let t = trim_of(lines[0]);
        let rest = npm_titles(lines.drop_first());
        if t.len() == 0 {
            rest
        } else {
            seq![after_last_slash(t)] + rest
        }
    }
}

/// Extract the npm package names.
fn extract_npm_titles(lines: &Vec<Vec<char>>) -> (r: Vec<String>)
    ensures
        strings_view(r@) == npm_titles(line_views(lines@)),
{
    let ghost all = line_views(lines@);
    let mut r: Vec<String> = Vec::new();
    let mut i: usize = 0;
    proof {
        assert(all.subrange(0, all.len() as int) =~= all);
        assert(strings_view(r@) =~= Seq::<Seq<char>>::empty());
    }
    while i < lines.len()
        invariant
            0 <= i <= lines@.len(),
            all == line_views(lines@),
            strings_view(r@) + npm_titles(all.subrange(i as int, all.len() as int)) == npm_titles(
                all,
            ),
        decreases lines@.len() - i,
    {
        let ghost rest = all.subrange(i as int, all.len() as int);
        let ghost r0 = strings_view(r@);
        proof {
            assert(rest[0] == lines@[i as int]@);
            assert(rest.drop_first() =~= all.subrange(i + 1 as int, all.len() as int));
        }
        let t = trim_chars(&lines[i]);
        if t.len() > 0 {
            let name = match rfind_char(&t, '/') {
                Some(p) => {
                    proof {
                        lemma_last_char_index(t@, '/');
                        let li = last_char_index(t@, '/');
                        assert(t@[p as int] == '/');
                        assert(li == p as int) by {
                            if li == -1 {
                                assert(t@[p as int] != '/');
                                assert(false);
                            } else if li < p as int {
                                assert(li >= 0);
                                assert(li < p as int && (p as int) < t@.len());
                                assert(t@[p as int] != '/');
                                assert(false);
                            } else if li > p as int {
                                assert(t@[li] == '/');
                                assert(t@[li] != '/');
                                assert(false);
                            }
                        }
                    }
                    chars_subrange(&t, p + 1, t.len())
                },
                None => {
                    proof {
                        lemma_last_char_index(t@, '/');
                        let li = last_char_index(t@, '/');
                        if li >= 0 {
                            assert(t@[li] != '/');
                        }
                    }
                    t
                },
            };
            proof {
                assert(name@ == after_last_slash(trim_of(rest[0])));
            }
            let s = chars_to_string(&name);
            r.push(s);
            proof {
                assert(strings_view(r@) =~= r0.push(after_last_slash(trim_of(rest[0]))));
                assert(r0.push(after_last_slash(trim_of(rest[0]))) + npm_titles(rest.drop_first())
                    =~= r0 + (seq![after_last_slash(trim_of(rest[0]))] + npm_titles(
                    rest.drop_first(),
                )));
            }
        }
        i = i + 1;
    }
    proof {
        assert(all.subrange(all.len() as int, all.len() as int) =~= Seq::<Seq<char>>::empty());
        assert(strings_view(r@) + Seq::<Seq<char>>::empty() =~= strings_view(r@));
    }
    r
}

/// The text before the first `==`, or the whole text without one.
pub open spec fn before_eq_marker(t: Seq<char>) -> Seq<char> {
    if first_sub_index(t, "=="@) >= 0 {
        t.subrange(0, first_sub_index(t, "=="@))
    } else {
        t
    }
}

/// The pip package name of each trimmed nonempty line: the text before the
/// first `==`.
pub open spec fn pip_titles(lines: Seq<Seq<char>>) -> Seq<Seq<char>>
    decreases lines.len(),
{
    if lines.len() == 0 {
        Seq::empty()
    } else {
        let t = trim_of(lines[0]);
        let rest = pip_titles(lines.drop_first());
        if t.len() == 0 {
            rest
        } else {
            seq![before_eq_marker(t)] + rest
        }
    }
}

/// Extract the pip package names.
fn extract_pip_titles(output: &str) -> (r: Vec<String>)
    ensures
        strings_view(r@) == pip_titles(lines_of(output@)),
{
    let v = str_to_chars(output);
    let lines = split_lines(&v);
    let ghost all = line_views(lines@);
    let marker = str_to_chars("==");
    proof {
        reveal_strlit("==");
        assert(marker@ =~= "=="@);
    }
    let mut r: Vec<String> = Vec::new();
    let mut i: usize = 0;
    proof {
        assert(all.subrange(0, all.len() as int) =~= all);
        assert(strings_view(r@) =~= Seq::<Seq<char>>::empty());
    }
    while i < lines.len()
        invariant
            0 <= i <= lines@.len(),
            all == line_views(lines@),
            marker@ == "=="@,
            marker@.len() == 2,
            strings_view(r@) + pip_titles(all.subrange(i as int, all.len() as int)) == pip_titles(
                all,
            ),
        decreases lines@.len() - i,
    {
        let ghost rest = all.subrange(i as int, all.len() as int);
        let ghost r0 = strings_view(r@);
        proof {
            assert(rest[0] == lines@[i as int]@);
            assert(rest.drop_first() =~= all.subrange(i + 1 as int, all.len() as int));
        }
        let t = trim_chars(&lines[i]);
        if t.len() > 0 {
            let name = match find_sub(&t, &marker) {
                Some(p) => chars_subrange(&t, 0, p),
                None => t,
            };
            proof {
                lemma_first_sub_index(trim_of(rest[0]), "=="@);
                let fi = first_sub_index(trim_of(rest[0]), "=="@);
                assert(name@ == before_eq_marker(trim_of(rest[0]))) by {
                    if fi >= 0 {
                        assert(crate::text::matches_at(trim_of(rest[0]), "=="@, fi));
                    }
                }
            }
            let s = chars_to_string(&name);
            r.push(s);
            proof {
                assert(strings_view(r@) =~= r0.push(before_eq_marker(trim_of(rest[0]))));
                assert(r0.push(before_eq_marker(trim_of(rest[0]))) + pip_titles(rest.drop_first())
                    =~= r0 + (seq![before_eq_marker(trim_of(rest[0]))] + pip_titles(
                    rest.drop_first(),
                )));
            }
        }
        i = i + 1;
    }
    proof {
        assert(all.subrange(all.len() as int, all.len() as int) =~= Seq::<Seq<char>>::empty());
        assert(strings_view(r@) + Seq::<Seq<char>>::empty() =~= strings_view(r@));
    }
    r
}

/// Extract the trimmed nonempty lines of the text.
pub fn extract_simple_titles(output: &str) -> (r: Vec<String>)
    ensures
        strings_view(r@) == simple_titles(output@),
{
    let v = str_to_chars(output);
    let lines = split_lines(&v);
    extract_visible_trimmed(&lines)
}

/// The text before the first dot, or the whole text without one.
pub open spec fn before_dot(t: Seq<char>) -> Seq<char> {
    if crate::text::first_char_index(t, '.') >= 0 {
        t.subrange(0, crate::text::first_char_index(t, '.'))
    } else {
        t
    }
}

/// The package names of an rpm-style `list installed` table: data rows
/// begin after a line whose lowercased text starts with `installed`; a
/// row's name is its first token cut at the first dot.
pub open spec fn rpm_titles(lines: Seq<Seq<char>>, started: bool) -> Seq<Seq<char>>
    decreases lines.len(),
{
    if lines.len() == 0 {
        Seq::empty()
    } else {
        let t = trim_of(lines[0]);
        let rest = lines.drop_first();
        if t.len() == 0 {
            rpm_titles(rest, started)
        } else if has_prefix(lower_of(t), "installed"@) {
            rpm_titles(rest, true)
        } else if !started {
            rpm_titles(rest, false)
        } else {
            seq![before_dot(token_of(t))] + rpm_titles(rest, true)
        }
    }
}

/// Extract the rpm-style package names.
fn extract_rpm_titles(output: &str) -> (r: Vec<String>)
    ensures
        strings_view(r@) == rpm_titles(lines_of(output@), false),
{
    let v = str_to_chars(output);
    let lines = split_lines(&v);
    let ghost all = line_views(lines@);
    let mut r: Vec<String> = Vec::new();
    let mut started = false;
    let mut i: usize = 0;
    proof {
        assert(all.subrange(0, all.len() as int) =~= all);
        assert(strings_view(r@) =~= Seq::<Seq<char>>::empty());
    }
    while i < lines.len()
        invariant
            0 <= i <= lines@.len(),
            all == line_views(lines@),
            strings_view(r@) + rpm_titles(all.subrange(i as int, all.len() as int), started)
                == rpm_titles(all, false),
        decreases lines@.len() - i,
    {
        let ghost rest = all.subrange(i as int, all.len() as int);
        let ghost r0 = strings_view(r@);
        proof {
            assert(rest[0] == lines@[i as int]@);
            assert(rest.drop_first() =~= all.subrange(i + 1 as int, all.len() as int));
        }
        let t = trim_chars(&lines[i]);
        if t.len() == 0 {
        } else if lower_has_prefix(&t, "installed") {
            started = true;
        } else if !started {
        } else {
            let tok = take_token(&t);
            let name = match crate::text::find_char(&tok, '.') {
                Some(p) => {
                    proof {
                        crate::text::lemma_first_char_index(tok@, '.');
                        let fi = crate::text::first_char_index(tok@, '.');
                        assert(tok@[p as int] == '.');
                        assert(fi == p as int) by {
                            if fi == -1 {
                                assert(tok@[p as int] != '.');
                                assert(false);
                            } else if fi < p as int {
                                assert(tok@[fi] != '.');
                                assert(tok@[fi] == '.');
                                assert(false);
                            } else if fi > p as int {
                                assert(tok@[p as int] != '.');
                                assert(false);
                            }
                        }
                    }
                    chars_subrange(&tok, 0, p)
                },
                None => {
                    proof {
                        crate::text::lemma_first_char_index(tok@, '.');
                        let fi = crate::text::first_char_index(tok@, '.');
                        if fi >= 0 {
                            assert(tok@[fi] != '.');
                        }
                    }
                    tok
                },
            };
            proof {
                assert(name@ == before_dot(token_of(trim_of(rest[0]))));
            }
            let s = chars_to_string(&name);
            r.push(s);
            proof {
                assert(strings_view(r@) =~= r0.push(before_dot(token_of(trim_of(rest[0])))));
                assert(r0.push(before_dot(token_of(trim_of(rest[0])))) + rpm_titles(
                    rest.drop_first(),
                    true,
                ) =~= r0 + (seq![before_dot(token_of(trim_of(rest[0])))] + rpm_titles(
                    rest.drop_first(),
                    true,
                )));
            }
        }
        i = i + 1;
    }
    proof {
        assert(all.subrange(all.len() as int, all.len() as int) =~= Seq::<Seq<char>>::empty());
        assert(strings_view(r@) + Seq::<Seq<char>>::empty() =~= strings_view(r@));
    }
    r
}

/// The views of a list of (title, command) pairs.
pub open spec fn pairs_view(s: Seq<(String, String)>) -> Seq<(Seq<char>, Seq<char>)> {
    s.map_values(|p: (String, String)| (p.0@, p.1@))
}

/// The (title, command) rows of a winget `list` table: data rows follow the
/// dashed separator line; header rows and rows with fewer than two columns
/// are skipped; the command installs by identifier when the second column
/// has one.
pub open spec fn winget_rows(lines: Seq<Seq<char>>, started: bool) -> Seq<(Seq<char>, Seq<char>)>
    decreases lines.len(),
{
    if lines.len() == 0 {
        Seq::empty()
    } else {
        let e = drop_trailing(lines[0]);
        let rest = lines.drop_first();
        if trim_of(e).len() == 0 {
            winget_rows(rest, started)
        } else if has_sub(e, "---"@) {
            winget_rows(rest, true)
        } else if has_prefix(lower_of(e), "name"@) && has_sub(lower_of(e), "id"@) {
            winget_rows(rest, started)
        } else if !started {
            winget_rows(rest, started)
        } else {
            let cols = spec_split_columns(e);
            if cols.len() < 2 {
                winget_rows(rest, true)
            } else {
                let name = cols[0];
                let id = cols[1];
                let cmd = if id.len() > 0 {
                    "winget install --id "@ + id
                } else {
                    "winget install "@ + name
                };
                seq![(name, cmd)] + winget_rows(rest, true)
            }
        }
    }
}

/// Extract the winget (title, command) rows.
fn extract_winget_rows(output: &str) -> (r: Vec<(String, String)>)
    ensures
        pairs_view(r@) == winget_rows(lines_of(output@), false),
{
    let v = str_to_chars(output);
    let lines = split_lines(&v);
    let ghost all = line_views(lines@);
    let dashes = str_to_chars("---");
    proof {
        reveal_strlit("---");
        assert(dashes@ =~= "---"@);
    }
    let mut r: Vec<(String, String)> = Vec::new();
    let mut started = false;
    let mut i: usize = 0;
    proof {
        assert(all.subrange(0, all.len() as int) =~= all);
        assert(pairs_view(r@) =~= Seq::<(Seq<char>, Seq<char>)>::empty());
    }
    while i < lines.len()
        invariant
            0 <= i <= lines@.len(),
            all == line_views(lines@),
            dashes@ == "---"@,
            dashes@.len() == 3,
            pairs_view(r@) + winget_rows(all.subrange(i as int, all.len() as int), started)
                == winget_rows(all, false),
        decreases lines@.len() - i,
    {
        let ghost rest = all.subrange(i as int, all.len() as int);
        let ghost r0 = pairs_view(r@);
        proof {
            assert(rest[0] == lines@[i as int]@);
            assert(rest.drop_first() =~= all.subrange(i + 1 as int, all.len() as int));
        }
        let e = trim_end_chars(&lines[i]);
        let t = trim_chars(&e);
        proof {
            assert(trim_of(e@) =~= trim_of(drop_trailing(rest[0])));
        }
        if t.len() == 0 {
        } else if crate::text::contains_sub(&e, &dashes) {
            started = true;
        } else if {
            let a = lower_has_prefix(&e, "name");
            a && {
                proof {
                    reveal_strlit("id");
                }
                lower_contains(&e, "id")
            }
        } {
        } else if !started {
        } else {
            let es = chars_to_string(&e);
            let cols = split_columns(es.as_str());
            if cols.len() < 2 {
                started = true;
            } else {
                let ghost scols = spec_split_columns(drop_trailing(rest[0]));
                proof {
                    assert(cols@[0]@ == scols[0]);
                    assert(cols@[1]@ == scols[1]);
                }
                let name = cols[0].clone();
                let id = cols[1].clone();
                let cmd = if !id.as_str().is_empty() {
                    concat3("winget install --id ", id.as_str(), "")
                } else {
                    concat3("winget install ", name.as_str(), "")
                };
                proof {
                    reveal_strlit("");
                    assert(""@ =~= Seq::<char>::empty());
                    if id@.len() > 0 {
                        assert(cmd@ =~= "winget install --id "@ + scols[1]);
                    } else {
                        assert(cmd@ =~= "winget install "@ + scols[0]);
                    }
                }
                r.push((name, cmd));
                proof {
                    let row = (scols[0], if scols[1].len() > 0 {
                        "winget install --id "@ + scols[1]
                    } else {
                        "winget install "@ + scols[0]
                    });
                    assert(pairs_view(r@) =~= r0.push(row));
                    assert(r0.push(row) + winget_rows(rest.drop_first(), true) =~= r0 + (seq![row]
                        + winget_rows(rest.drop_first(), true)));
                }
                started = true;
            }
        }
        i = i + 1;
    }
    proof {
        assert(all.subrange(all.len() as int, all.len() as int) =~= Seq::<Seq<char>>::empty());
        assert(pairs_view(r@) + Seq::<(Seq<char>, Seq<char>)>::empty() =~= pairs_view(r@));
    }
    r
}

/// Make the tag that marks package records.
fn package_tag() -> (t: Tag)
    ensures
        t@ == "package"@,
{
    proof {
        reveal_strlit("package");
        assert(has_content("package"@)) by {
            assert(!crate::text::is_space("package"@[0]));
        }
    }
    make_tag("package")
}

/// Make the tag that marks application records.
fn application_tag() -> (t: Tag)
    ensures
        t@ == "application"@,
{
    proof {
        reveal_strlit("application");
        assert(has_content("application"@)) by {
            assert(!crate::text::is_space("application"@[0]));
        }
    }
    make_tag("application")
}

/// Make the tag that marks configuration records.
fn config_tag() -> (t: Tag)
    ensures
        t@ == "config"@,
{
    proof {
        reveal_strlit("config");
        assert(has_content("config"@)) by {
            assert(!crate::text::is_space("config"@[0]));
        }
    }
    make_tag("config")
}

/// The Homebrew records: one package per formula line, one application per
/// cask line, in that order.
pub fn brew_changes(formulae: &str, casks: &str, system: &SystemInfo, now: &str) -> (r: Vec<
    DetectedChange,
>)
    ensures
        ({
            let ft = simple_titles(formulae@);
            let ct = simple_titles(casks@);
            &&& r@.len() == ft.len() + ct.len()
            &&& forall|i: int|
                0 <= i < ft.len() ==> {
                    let c = (#[trigger] r@[i])@;
                    &&& c.title == ft[i]
                    &&& c.cmd == "brew install "@ + ft[i]
                    &&& c.path is None
                    &&& stamped(c, "homebrew"@, EntryType::Package, "package"@, system@, now@)
                }
            &&& forall|i: int|
                ft.len() <= i < r@.len() ==> {
                    let c = (#[trigger] r@[i])@;
                    &&& c.title == ct[i - ft.len()]
                    &&& c.cmd == "brew install --cask "@ + ct[i - ft.len()]
                    &&& c.path is None
                    &&& stamped(c, "homebrew"@, EntryType::Application, "application"@, system@, now@)
                }
        }),
{
    let ptag = package_tag();
    let atag = application_tag();
    let ftitles = extract_simple_titles(formulae);
    let ctitles = extract_simple_titles(casks);
    let mut r = build_changes(
        &ftitles,
        "homebrew",
        "brew install ",
        "",
        EntryType::Package,
        &ptag,
        system,
        now,
    );
    let mut c2 = build_changes(
        &ctitles,
        "homebrew",
        "brew install --cask ",
        "",
        EntryType::Application,
        &atag,
        system,
        now,
    );
    let ghost f0 = r@;
    let ghost c0 = c2@;
    r.append(&mut c2);
    proof {
        reveal_strlit("");
        let ft = simple_titles(formulae@);
        let ct = simple_titles(casks@);
        assert forall|i: int| 0 <= i < ft.len() implies {
            let c = (#[trigger] r@[i])@;
            c.title == ft[i] && c.cmd == "brew install "@ + ft[i] && c.path is None && stamped(
                c,
                "homebrew"@,
                EntryType::Package,
                "package"@,
                system@,
                now@,
            )
        } by {
            assert(r@[i] == f0[i]);
            assert("brew install "@ + ft[i] + ""@ =~= "brew install "@ + ft[i]);
        }
        assert forall|i: int| ft.len() <= i < r@.len() implies {
            let c = (#[trigger] r@[i])@;
            c.title == ct[i - ft.len()] && c.cmd == "brew install --cask "@ + ct[i - ft.len()]
                && c.path is None && stamped(
                c,
                "homebrew"@,
                EntryType::Application,
                "application"@,
                system@,
                now@,
            )
        } by {
            assert(r@[i] == c0[i - ft.len()]);
            assert("brew install --cask "@ + ct[i - ft.len()] + ""@ =~= "brew install --cask "@
                + ct[i - ft.len()]);
        }
    }
    r
}

/// The npm records: the first output line is the tree root and is dropped;
/// every further nonempty line names a package by its last path segment.
pub fn npm_changes(output: &str, system: &SystemInfo, now: &str) -> (r: Vec<DetectedChange>)
    ensures
        ({
            let ts = npm_titles(lines_of(output@).drop_first());
            &&& r@.len() == ts.len()
            &&& forall|i: int|
                0 <= i < r@.len() ==> {
                    let c = (#[trigger] r@[i])@;
                    &&& c.title == ts[i]
                    &&& c.cmd == "npm install -g "@ + ts[i]
                    &&& c.path is None
                    &&& stamped(c, "npm"@, EntryType::Package, "package"@, system@, now@)
                }
        }),
{
    let tag = package_tag();
    let v = str_to_chars(output);
    let mut lines = split_lines(&v);
    let ghost all0 = line_views(lines@);
    let _root = lines.remove(0);
    proof {
        assert(line_views(lines@) =~~= lines_of(output@).drop_first());
    }
    let titles = extract_npm_titles(&lines);
    let r = build_changes(
        &titles,
        "npm",
        "npm install -g ",
        "",
        EntryType::Package,
        &tag,
        system,
        now,
    );
    proof {
        reveal_strlit("");
        let ts = npm_titles(lines_of(output@).drop_first());
        assert forall|i: int| 0 <= i < r@.len() implies (#[trigger] r@[i])@.cmd == "npm install -g "@
            + ts[i] by {
            assert("npm install -g "@ + ts[i] + ""@ =~= "npm install -g "@ + ts[i]);
        }
    }
    r
}

/// The cargo records: every trimmed nonempty line's first token names a
/// crate.
pub fn cargo_changes(output: &str, system: &SystemInfo, now: &str) -> (r: Vec<DetectedChange>)
    ensures
        ({
            let ts = token_titles(lines_of(output@), |t: Seq<char>| keep_all(t));
            &&& r@.len() == ts.len()
            &&& forall|i: int|
                0 <= i < r@.len() ==> {
                    let c = (#[trigger] r@[i])@;
                    &&& c.title == ts[i]
                    &&& c.cmd == "cargo install "@ + ts[i]
                    &&& c.path is None
                    &&& stamped(c, "cargo"@, EntryType::Package, "package"@, system@, now@)
                }
        }),
{
    let tag = package_tag();
    let titles = extract_token_titles(output, HeaderRule::KeepAll);
    let r = build_changes(
        &titles,
        "cargo",
        "cargo install ",
        "",
        EntryType::Package,
        &tag,
        system,
        now,
    );
    proof {
        reveal_strlit("");
        let ts = token_titles(lines_of(output@), |t: Seq<char>| keep_all(t));
        assert forall|i: int| 0 <= i < r@.len() implies (#[trigger] r@[i])@.cmd == "cargo install "@
            + ts[i] by {
            assert("cargo install "@ + ts[i] + ""@ =~= "cargo install "@ + ts[i]);
        }
    }
    r
}

/// The pip records: every trimmed nonempty line names a package, cut at the
/// first `==`.
pub fn pip_changes(output: &str, system: &SystemInfo, now: &str) -> (r: Vec<DetectedChange>)
    ensures
        ({
            let ts = pip_titles(lines_of(output@));
            &&& r@.len() == ts.len()
            &&& forall|i: int|
                0 <= i < r@.len() ==> {
                    let c = (#[trigger] r@[i])@;
                    &&& c.title == ts[i]
                    &&& c.cmd == "pip install "@ + ts[i]
                    &&& c.path is None
                    &&& stamped(c, "pip"@, EntryType::Package, "package"@, system@, now@)
                }
        }),
{
    let tag = package_tag();
    let titles = extract_pip_titles(output);
    let r = build_changes(
        &titles,
        "pip",
        "pip install ",
        "",
        EntryType::Package,
        &tag,
        system,
        now,
    );
    proof {
        reveal_strlit("");
        let ts = pip_titles(lines_of(output@));
        assert forall|i: int| 0 <= i < r@.len() implies (#[trigger] r@[i])@.cmd == "pip install "@
            + ts[i] by {
            assert("pip install "@ + ts[i] + ""@ =~= "pip install "@ + ts[i]);
        }
    }
    r
}

/// The apt records: every trimmed nonempty line names a package.
pub fn apt_changes(output: &str, system: &SystemInfo, now: &str) -> (r: Vec<DetectedChange>)
    ensures
        ({
            let ts = simple_titles(output@);
            &&& r@.len() == ts.len()
            &&& forall|i: int|
                0 <= i < r@.len() ==> {
                    let c = (#[trigger] r@[i])@;
                    &&& c.title == ts[i]
                    &&& c.cmd == "sudo apt-get install "@ + ts[i]
                    &&& c.path is None
                    &&& stamped(c, "apt"@, EntryType::Package, "package"@, system@, now@)
                }
        }),
{
    let tag = package_tag();
    let titles = extract_simple_titles(output);
    let r = build_changes(
        &titles,
        "apt",
        "sudo apt-get install ",
        "",
        EntryType::Package,
        &tag,
        system,
        now,
    );
    proof {
        reveal_strlit("");
        let ts = simple_titles(output@);
        assert forall|i: int| 0 <= i < r@.len() implies (#[trigger] r@[i])@.cmd
            == "sudo apt-get install "@ + ts[i] by {
            assert("sudo apt-get install "@ + ts[i] + ""@ =~= "sudo apt-get install "@ + ts[i]);
        }
    }
    r
}

/// The pacman records: every trimmed nonempty line names a package.
pub fn pacman_changes(output: &str, system: &SystemInfo, now: &str) -> (r: Vec<DetectedChange>)
    ensures
        ({
            let ts = simple_titles(output@);
            &&& r@.len() == ts.len()
            &&& forall|i: int|
                0 <= i < r@.len() ==> {
                    let c = (#[trigger] r@[i])@;
                    &&& c.title == ts[i]
                    &&& c.cmd == "sudo pacman -S "@ + ts[i]
                    &&& c.path is None
                    &&& stamped(c, "pacman"@, EntryType::Package, "package"@, system@, now@)
                }
        }),
{
    let tag = package_tag();
    let titles = extract_simple_titles(output);
    let r = build_changes(
        &titles,
        "pacman",
        "sudo pacman -S ",
        "",
        EntryType::Package,
        &tag,
        system,
        now,
    );
    proof {
        reveal_strlit("");
        let ts = simple_titles(output@);
        assert forall|i: int| 0 <= i < r@.len() implies (#[trigger] r@[i])@.cmd == "sudo pacman -S "@
            + ts[i] by {
            assert("sudo pacman -S "@ + ts[i] + ""@ =~= "sudo pacman -S "@ + ts[i]);
        }
    }
    r
}

/// The flatpak records: every trimmed nonempty line names an application.
pub fn flatpak_changes(output: &str, system: &SystemInfo, now: &str) -> (r: Vec<DetectedChange>)
    ensures
        ({
            let ts = simple_titles(output@);
            &&& r@.len() == ts.len()
            &&& forall|i: int|
                0 <= i < r@.len() ==> {
                    let c = (#[trigger] r@[i])@;
                    &&& c.title == ts[i]
                    &&& c.cmd == "flatpak install "@ + ts[i]
                    &&& c.path is None
                    &&& stamped(c, "flatpak"@, EntryType::Application, "application"@, system@, now@)
                }
        }),
{
    let tag = application_tag();
    let titles = extract_simple_titles(output);
    let r = build_changes(
        &titles,
        "flatpak",
        "flatpak install ",
        "",
        EntryType::Application,
        &tag,
        system,
        now,
    );
    proof {
        reveal_strlit("");
        let ts = simple_titles(output@);
        assert forall|i: int| 0 <= i < r@.len() implies (#[trigger] r@[i])@.cmd
            == "flatpak install "@ + ts[i] by {
            assert("flatpak install "@ + ts[i] + ""@ =~= "flatpak install "@ + ts[i]);
        }
    }
    r
}

/// The snap records: header lines beginning with `name` are skipped; every
/// other trimmed nonempty line's first token names an application.
pub fn snap_changes(output: &str, system: &SystemInfo, now: &str) -> (r: Vec<DetectedChange>)
    ensures
        ({
            let ts = token_titles(lines_of(output@), |t: Seq<char>| snap_header(t));
            &&& r@.len() == ts.len()
            &&& forall|i: int|
                0 <= i < r@.len() ==> {
                    let c = (#[trigger] r@[i])@;
                    &&& c.title == ts[i]
                    &&& c.cmd == "sudo snap install "@ + ts[i]
                    &&& c.path is None
                    &&& stamped(c, "snap"@, EntryType::Application, "application"@, system@, now@)
                }
        }),
{
    let tag = application_tag();
    let titles = extract_token_titles(output, HeaderRule::Snap);
    let r = build_changes(
        &titles,
        "snap",
        "sudo snap install ",
        "",
        EntryType::Application,
        &tag,
        system,
        now,
    );
    proof {
        reveal_strlit("");
        let ts = token_titles(lines_of(output@), |t: Seq<char>| snap_header(t));
        assert forall|i: int| 0 <= i < r@.len() implies (#[trigger] r@[i])@.cmd
            == "sudo snap install "@ + ts[i] by {
            assert("sudo snap install "@ + ts[i] + ""@ =~= "sudo snap install "@ + ts[i]);
        }
    }
    r
}

/// The chocolatey records: banner and summary lines are skipped; every
/// other trimmed nonempty line's first token names a package.
pub fn choco_changes(output: &str, system: &SystemInfo, now: &str) -> (r: Vec<DetectedChange>)
    ensures
        ({
            let ts = token_titles(lines_of(output@), |t: Seq<char>| choco_header(t));
            &&& r@.len() == ts.len()
            &&& forall|i: int|
                0 <= i < r@.len() ==> {
                    let c = (#[trigger] r@[i])@;
                    &&& c.title == ts[i]
                    &&& c.cmd == "choco install "@ + ts[i] + " -y"@
                    &&& c.path is None
                    &&& stamped(c, "chocolatey"@, EntryType::Package, "package"@, system@, now@)
                }
        }),
{
    let tag = package_tag();
    let titles = extract_token_titles(output, HeaderRule::Choco);
    let r = build_changes(
        &titles,
        "chocolatey",
        "choco install ",
        " -y",
        EntryType::Package,
        &tag,
        system,
        now,
    );
    r
}

/// The scoop records: header lines are skipped; every other trimmed
/// nonempty line's first token names a package.
pub fn scoop_changes(output: &str, system: &SystemInfo, now: &str) -> (r: Vec<DetectedChange>)
    ensures
        ({
            let ts = token_titles(lines_of(output@), |t: Seq<char>| scoop_header(t));
            &&& r@.len() == ts.len()
            &&& forall|i: int|
                0 <= i < r@.len() ==> {
                    let c = (#[trigger] r@[i])@;
                    &&& c.title == ts[i]
                    &&& c.cmd == "scoop install "@ + ts[i]
                    &&& c.path is None
                    &&& stamped(c, "scoop"@, EntryType::Package, "package"@, system@, now@)
                }
        }),
{
    let tag = package_tag();
    let titles = extract_token_titles(output, HeaderRule::Scoop);
    let r = build_changes(
        &titles,
        "scoop",
        "scoop install ",
        "",
        EntryType::Package,
        &tag,
        system,
        now,
    );
    proof {
        reveal_strlit("");
        let ts = token_titles(lines_of(output@), |t: Seq<char>| scoop_header(t));
        assert forall|i: int| 0 <= i < r@.len() implies (#[trigger] r@[i])@.cmd == "scoop install "@
            + ts[i] by {
            assert("scoop install "@ + ts[i] + ""@ =~= "scoop install "@ + ts[i]);
        }
    }
    r
}

/// The records of an rpm-style `list installed` table for `source`.
pub fn parse_rpm_list(output: &str, source: &str, system: &SystemInfo, now: &str) -> (r: Vec<
    DetectedChange,
>)
    ensures
        ({
            let ts = rpm_titles(lines_of(output@), false);
            &&& r@.len() == ts.len()
            &&& forall|i: int|
                0 <= i < r@.len() ==> {
                    let c = (#[trigger] r@[i])@;
                    &&& c.title == ts[i]
                    &&& c.cmd == "sudo "@ + source@ + " install "@ + ts[i]
                    &&& c.path is None
                    &&& stamped(c, source@, EntryType::Package, "package"@, system@, now@)
                }
        }),
{
    let tag = package_tag();
    let titles = extract_rpm_titles(output);
    let prefix = concat3("sudo ", source, " install ");
    let r = build_changes(
        &titles,
        source,
        prefix.as_str(),
        "",
        EntryType::Package,
        &tag,
        system,
        now,
    );
    proof {
        reveal_strlit("");
        let ts = rpm_titles(lines_of(output@), false);
        assert forall|i: int| 0 <= i < r@.len() implies (#[trigger] r@[i])@.cmd == "sudo "@ + source@
            + " install "@ + ts[i] by {
            assert(("sudo "@ + source@ + " install "@) + ts[i] + ""@ =~= "sudo "@ + source@
                + " install "@ + ts[i]);
        }
    }
    r
}

/// The records of a winget `list` table for `source`.
pub fn parse_winget_list(output: &str, source: &str, system: &SystemInfo, now: &str) -> (r: Vec<
    DetectedChange,
>)
    ensures
        ({
            let rows = winget_rows(lines_of(output@), false);
            &&& r@.len() == rows.len()
            &&& forall|i: int|
                0 <= i < r@.len() ==> {
                    let c = (#[trigger] r@[i])@;
                    &&& c.title == rows[i].0
                    &&& c.cmd == rows[i].1
                    &&& c.path is None
                    &&& stamped(c, source@, EntryType::Application, "application"@, system@, now@)
                }
        }),
{
    let tag = application_tag();
    let rows = extract_winget_rows(output);
    let ghost rowsv = winget_rows(lines_of(output@), false);
    let mut r: Vec<DetectedChange> = Vec::new();
    let mut i: usize = 0;
    while i < rows.len()
        invariant
            0 <= i <= rows@.len(),
            pairs_view(rows@) == rowsv,
            tag@ == "application"@,
            r@.len() == i,
            forall|k: int|
                0 <= k < i ==> {
                    let c = (#[trigger] r@[k])@;
                    &&& c.title == rowsv[k].0
                    &&& c.cmd == rowsv[k].1
                    &&& c.path is None
                    &&& stamped(c, source@, EntryType::Application, "application"@, system@, now@)
                },
        decreases rows@.len() - i,
    {
        let title = rows[i].0.clone();
        let cmd = rows[i].1.clone();
        proof {
            assert(pairs_view(rows@)[i as int] == (rows@[i as int].0@, rows@[i as int].1@));
        }
        let c = make_change(
            title,
            cmd,
            None,
            source,
            EntryType::Application,
            &tag,
            system,
            now,
        );
        r.push(c);
        i = i + 1;
    }
    r
}

/// The mac defaults records: the output is a comma-separated list of
/// domains.
pub fn mac_defaults_changes(output: &str, system: &SystemInfo, now: &str) -> (r: Vec<
    DetectedChange,
>)
    ensures
        ({
            let ts = visible_trimmed(split_char_of(output@, ','));
            &&& r@.len() == ts.len()
            &&& forall|i: int|
                0 <= i < r@.len() ==> {
                    let c = (#[trigger] r@[i])@;
                    &&& c.title == ts[i]
                    &&& c.cmd == "defaults read "@ + ts[i]
                    &&& c.path is None
                    &&& stamped(c, "mac_defaults"@, EntryType::Config, "config"@, system@, now@)
                }
        }),
{
    let tag = config_tag();
    let v = str_to_chars(output);
    let pieces = split_on_char(&v, ',');
    let titles = extract_visible_trimmed(&pieces);
    let r = build_changes(
        &titles,
        "mac_defaults",
        "defaults read ",
        "",
        EntryType::Config,
        &tag,
        system,
        now,
    );
    proof {
        reveal_strlit("");
        let ts = visible_trimmed(split_char_of(output@, ','));
        assert forall|i: int| 0 <= i < r@.len() implies (#[trigger] r@[i])@.cmd == "defaults read "@
            + ts[i] by {
            assert("defaults read "@ + ts[i] + ""@ =~= "defaults read "@ + ts[i]);
        }
    }
    r
}

/// The title a watched dotfile is listed under: the path's last segment, or
/// `dotfile` when that segment is empty.
pub open spec fn dotfile_title(p: Seq<char>) -> Seq<char> {
    if after_last_slash(p).len() > 0 {
        after_last_slash(p)
    } else {
        "dotfile"@
    }
}

/// The dotfile records: one configuration record per watched path.
pub fn dotfile_changes(paths: &Vec<String>, system: &SystemInfo, now: &str) -> (r: Vec<
    DetectedChange,
>)
    ensures
        r@.len() == paths@.len(),
        forall|i: int|
            0 <= i < r@.len() ==> {
                let c = (#[trigger] r@[i])@;
                &&& c.title == dotfile_title(paths@[i]@)
                &&& c.cmd == "open "@ + paths@[i]@
                &&& c.path == Some(paths@[i]@)
                &&& stamped(c, "dotfiles"@, EntryType::Config, "config"@, system@, now@)
            },
{
    let tag = config_tag();
    let mut r: Vec<DetectedChange> = Vec::new();
    let mut i: usize = 0;
    while i < paths.len()
        invariant
            0 <= i <= paths@.len(),
            tag@ == "config"@,
            r@.len() == i,
            forall|k: int|
                0 <= k < i ==> {
                    let c = (#[trigger] r@[k])@;
                    &&& c.title == dotfile_title(paths@[k]@)
                    &&& c.cmd == "open "@ + paths@[k]@
                    &&& c.path == Some(paths@[k]@)
                    &&& stamped(c, "dotfiles"@, EntryType::Config, "config"@, system@, now@)
                },
        decreases paths@.len() - i,
    {
        let p = paths[i].clone();
        let pv = str_to_chars(p.as_str());
        let pn = pv.len();
        let name = match rfind_char(&pv, '/') {
            Some(q) => {
                proof {
                    lemma_last_char_index(pv@, '/');
                    let li = last_char_index(pv@, '/');
                    assert(pv@[q as int] == '/');
                    assert(li == q as int) by {
                        if li == -1 {
                            assert(pv@[q as int] != '/');
                            assert(false);
                        } else if li < q as int {
                            assert(pv@[q as int] != '/');
                            assert(false);
                        } else if li > q as int {
                            assert(pv@[li] == '/');
                            assert(pv@[li] != '/');
                            assert(false);
                        }
                    }
                }
                chars_subrange(&pv, q + 1, pn)
            },
            None => {
                proof {
                    lemma_last_char_index(pv@, '/');
                    let li = last_char_index(pv@, '/');
                    if li >= 0 {
                        assert(pv@[li] != '/');
                    }
                }
                pv
            },
        };
        proof {
            assert(name@ == after_last_slash(paths@[i as int]@));
        }
        let title = if name.len() > 0 {
            chars_to_string(&name)
        } else {
            String::from_str("dotfile")
        };
        let cmd = concat3("open ", p.as_str(), "");
        proof {
            reveal_strlit("");
            assert(cmd@ =~= "open "@ + paths@[i as int]@);
        }
        let c = make_change(
            title,
            cmd,
            Some(p),
            "dotfiles",
            EntryType::Config,
            &tag,
            system,
            now,
        );
        r.push(c);
        i = i + 1;
    }
    r
}

/// A file-system entry handed to a detector: a leaf name and a full path.
pub struct ScannedEntry {
    /// The entry's leaf name.
    pub name: String,
    /// The entry's full path.
    pub path: String,
}

/// Mathematical view of `ScannedEntry`.
pub ghost struct ScannedEntryV {
    pub name: Seq<char>,
    pub path: Seq<char>,
}

impl View for ScannedEntry {
    type V = ScannedEntryV;

    open spec fn view(&self) -> ScannedEntryV {
        ScannedEntryV { name: self.name@, path: self.path@ }
    }
}

/// Normalize an application name for comparison against cask names:
/// ASCII letters and digits lowercased, every other run collapsed to one
/// dash, no dash at either end.
pub fn normalize_name(input: &str) -> (r: String)
    ensures
        r@ == crate::text::slug_of(input@),
{
    let v = str_to_chars(input);
    let s = crate::text::slug_chars(&v);
    chars_to_string(&s)
}

/// The slugs of the cask list's lines, one per line.
pub open spec fn cask_slugs(c: Seq<char>) -> Seq<Seq<char>> {
    lines_of(c).map_values(|l: Seq<char>| crate::text::slug_of(trim_of(l)))
}

/// The (title, path) rows of the application scan: applications whose
/// slugged name matches a Homebrew cask are left out.
pub open spec fn mac_app_rows(apps: Seq<ScannedEntry>, casks: Seq<char>) -> Seq<(Seq<char>, Seq<
    char,
>)>
    decreases apps.len(),
{
    if apps.len() == 0 {
        Seq::empty()
    } else {
        let a = apps[0];
        let rest = mac_app_rows(apps.drop_first(), casks);
        if cask_slugs(casks).contains(crate::text::slug_of(a.name@)) {
            rest
        } else {
            seq![(a.name@, a.path@)] + rest
        }
    }
}

/// Decide whether the list holds a string with these characters.
fn string_list_has(list: &Vec<String>, x: &String) -> (r: bool)
    ensures
        r == strings_view(list@).contains(x@),
{
    let mut i: usize = 0;
    while i < list.len()
        invariant
            0 <= i <= list@.len(),
            forall|j: int| 0 <= j < i ==> strings_view(list@)[j] != x@,
        decreases list@.len() - i,
    {
        if list[i] == *x {
            proof {
                assert(strings_view(list@)[i as int] == x@);
            }
            return true;
        }
        proof {
            assert(strings_view(list@)[i as int] == list@[i as int]@);
        }
        i = i + 1;
    }
    false
}

/// Compute the slug of every line of the cask output.
fn compute_cask_slugs(casks: &str) -> (r: Vec<String>)
    ensures
        strings_view(r@) == cask_slugs(casks@),
{
    let v = str_to_chars(casks);
    let lines = split_lines(&v);
    let ghost all = line_views(lines@);
    let mut r: Vec<String> = Vec::new();
    let mut i: usize = 0;
    while i < lines.len()
        invariant
            0 <= i <= lines@.len(),
            all == line_views(lines@),
            strings_view(r@) =~= all.subrange(0, i as int).map_values(
                |l: Seq<char>| crate::text::slug_of(trim_of(l)),
            ),
        decreases lines@.len() - i,
    {
        let ghost r0 = strings_view(r@);
        let t = trim_chars(&lines[i]);
        let s = crate::text::slug_chars(&t);
        let sl = chars_to_string(&s);
        r.push(sl);
        proof {
            assert(all[i as int] == lines@[i as int]@);
            assert(strings_view(r@) =~= r0.push(crate::text::slug_of(trim_of(all[i as int]))));
            assert(all.subrange(0, i + 1 as int).map_values(
                |l: Seq<char>| crate::text::slug_of(trim_of(l)),
            ) =~= all.subrange(0, i as int).map_values(
                |l: Seq<char>| crate::text::slug_of(trim_of(l)),
            ).push(crate::text::slug_of(trim_of(all[i as int]))));
        }
        i = i + 1;
    }
    proof {
        assert(all.subrange(0, all.len() as int) =~= all);
        assert(cask_slugs(casks@) == all.map_values(|l: Seq<char>| crate::text::slug_of(trim_of(l))));
    }
    r
}

/// The application records of a macOS application folder scan: one
/// application per entry, leaving out those that match a Homebrew cask.
pub fn mac_app_changes(
    apps: &Vec<ScannedEntry>,
    casks_output: &str,
    system: &SystemInfo,
    now: &str,
) -> (r: Vec<DetectedChange>)
    ensures
        ({
            let rows = mac_app_rows(apps@, casks_output@);
            &&& r@.len() == rows.len()
            &&& forall|i: int|
                0 <= i < r@.len() ==> {
                    let c = (#[trigger] r@[i])@;
                    &&& c.title == rows[i].0
                    &&& c.cmd == "open \""@ + rows[i].1 + "\""@
                    &&& c.path == Some(rows[i].1)
                    &&& stamped(
                        c,
                        "applications"@,
                        EntryType::Application,
                        "application"@,
                        system@,
                        now@,
                    )
                }
        }),
{
    let tag = application_tag();
    let slugs = compute_cask_slugs(casks_output);
    let ghost allrows = mac_app_rows(apps@, casks_output@);
    let mut r: Vec<DetectedChange> = Vec::new();
    let mut i: usize = 0;
    proof {
        assert(apps@.subrange(0, apps@.len() as int) =~= apps@);
    }
    while i < apps.len()
        invariant
            0 <= i <= apps@.len(),
            tag@ == "application"@,
            strings_view(slugs@) == cask_slugs(casks_output@),
            ({
                let done = seq_rows(r@);
                done + mac_app_rows(apps@.subrange(i as int, apps@.len() as int), casks_output@)
                    == mac_app_rows(apps@, casks_output@)
            }),
            forall|k: int|
                0 <= k < r@.len() ==> {
                    let c = (#[trigger] r@[k])@;
                    &&& c.title == seq_rows(r@)[k].0
                    &&& c.cmd == "open \""@ + seq_rows(r@)[k].1 + "\""@
                    &&& c.path == Some(seq_rows(r@)[k].1)
                    &&& stamped(
                        c,
                        "applications"@,
                        EntryType::Application,
                        "application"@,
                        system@,
                        now@,
                    )
                },
        decreases apps@.len() - i,
    {
        let ghost rest = apps@.subrange(i as int, apps@.len() as int);
        let ghost done0 = seq_rows(r@);
        proof {
            assert(rest[0] == apps@[i as int]);
            assert(rest.drop_first() =~= apps@.subrange(i + 1 as int, apps@.len() as int));
        }
        let a = &apps[i];
        let nv = str_to_chars(a.name.as_str());
        let sv = crate::text::slug_chars(&nv);
        let slug = chars_to_string(&sv);
        let skip = string_list_has(&slugs, &slug);
        if !skip {
            let title = a.name.clone();
            let path = a.path.clone();
            let cmd = concat3("open \"", path.as_str(), "\"");
            let c = make_change(
                title,
                cmd,
                Some(path),
                "applications",
                EntryType::Application,
                &tag,
                system,
                now,
            );
            r.push(c);
            proof {
                assert(seq_rows(r@) =~= done0.push((apps@[i as int].name@, apps@[i as int].path@)));
                assert(done0.push((apps@[i as int].name@, apps@[i as int].path@)) + mac_app_rows(
                    rest.drop_first(),
                    casks_output@,
                ) =~= done0 + (seq![(apps@[i as int].name@, apps@[i as int].path@)] + mac_app_rows(
                    rest.drop_first(),
                    casks_output@,
                )));
            }
        }
        i = i + 1;
    }
    proof {
        assert(apps@.subrange(apps@.len() as int, apps@.len() as int) =~= Seq::<
            ScannedEntry,
        >::empty());
        assert(seq_rows(r@) + Seq::<(Seq<char>, Seq<char>)>::empty() =~= seq_rows(r@));
    }
    r
}

/// The (title, path) pairs the records of a scan stand for.
pub open spec fn seq_rows(r: Seq<DetectedChange>) -> Seq<(Seq<char>, Seq<char>)> {
    r.map_values(
        |c: DetectedChange|
            (
                c.title@,
                match c.path {
                    Some(p) => p@,
                    None => Seq::<char>::empty(),
                },
            ),
    )
}

/// The (title, file name, path) rows of a desktop-file scan: entries whose
/// name ends in `.desktop`, titled by the name without that ending.
pub open spec fn desktop_rows(files: Seq<ScannedEntry>) -> Seq<(Seq<char>, Seq<char>, Seq<char>)>
    decreases files.len(),
{
    if files.len() == 0 {
        Seq::empty()
    } else {
        let f = files[0];
        let rest = desktop_rows(files.drop_first());
        if has_suffix(f.name@, ".desktop"@) {
            seq![(f.name@.subrange(0, f.name@.len() - ".desktop"@.len()), f.name@, f.path@)] + rest
        } else {
            rest
        }
    }
}

/// The application records of a Linux desktop-file scan.
pub fn desktop_app_changes(files: &Vec<ScannedEntry>, system: &SystemInfo, now: &str) -> (r: Vec<
    DetectedChange,
>)
    ensures
        ({
            let rows = desktop_rows(files@);
            &&& r@.len() == rows.len()
            &&& forall|i: int|
                0 <= i < r@.len() ==> {
                    let c = (#[trigger] r@[i])@;
                    &&& c.title == rows[i].0
                    &&& c.cmd == "gtk-launch "@ + rows[i].1
                    &&& c.path == Some(rows[i].2)
                    &&& stamped(
                        c,
                        "applications"@,
                        EntryType::Application,
                        "application"@,
                        system@,
                        now@,
                    )
                }
        }),
{
    let tag = application_tag();
    let suffix = str_to_chars(".desktop");
    proof {
        reveal_strlit(".desktop");
        assert(suffix@ =~= ".desktop"@);
    }
    let ghost allrows = desktop_rows(files@);
    let mut r: Vec<DetectedChange> = Vec::new();
    let ghost done: Seq<(Seq<char>, Seq<char>, Seq<char>)> = Seq::empty();
    let mut i: usize = 0;
    proof {
        assert(files@.subrange(0, files@.len() as int) =~= files@);
    }
    while i < files.len()
        invariant
            0 <= i <= files@.len(),
            tag@ == "application"@,
            suffix@ == ".desktop"@,
            r@.len() == done.len(),
            done + desktop_rows(files@.subrange(i as int, files@.len() as int)) == desktop_rows(
                files@,
            ),
            forall|k: int|
                0 <= k < r@.len() ==> {
                    let c = (#[trigger] r@[k])@;
                    &&& c.title == done[k].0
                    &&& c.cmd == "gtk-launch "@ + done[k].1
                    &&& c.path == Some(done[k].2)
                    &&& stamped(
                        c,
                        "applications"@,
                        EntryType::Application,
                        "application"@,
                        system@,
                        now@,
                    )
                },
        decreases files@.len() - i,
    {
        let ghost rest = files@.subrange(i as int, files@.len() as int);
        let ghost done0 = done;
        proof {
            assert(rest[0] == files@[i as int]);
            assert(rest.drop_first() =~= files@.subrange(i + 1 as int, files@.len() as int));
        }
        let f = &files[i];
        let nv = str_to_chars(f.name.as_str());
        if crate::text::ends_with_chars(&nv, &suffix) {
            let stem = chars_subrange(&nv, 0, nv.len() - suffix.len());
            let title = chars_to_string(&stem);
            let cmd = concat3("gtk-launch ", f.name.as_str(), "");
            let path = f.path.clone();
            proof {
                reveal_strlit("");
                assert(cmd@ =~= "gtk-launch "@ + files@[i as int].name@);
            }
            let c = make_change(
                title,
                cmd,
                Some(path),
                "applications",
                EntryType::Application,
                &tag,
                system,
                now,
            );
            r.push(c);
            proof {
                let row = (
                    files@[i as int].name@.subrange(
                        0,
                        files@[i as int].name@.len() - ".desktop"@.len(),
                    ),
                    files@[i as int].name@,
                    files@[i as int].path@,
                );
                done = done0.push(row);
                assert(done0.push(row) + desktop_rows(rest.drop_first()) =~= done0 + (seq![row]
                    + desktop_rows(rest.drop_first())));
            }
        }
        i = i + 1;
    }
    proof {
        assert(files@.subrange(files@.len() as int, files@.len() as int) =~= Seq::<
            ScannedEntry,
        >::empty());
        assert(done + Seq::<(Seq<char>, Seq<char>, Seq<char>)>::empty() =~= done);
    }
    r
}

/// The application records of a Windows Program Files scan: one per
/// directory.
pub fn program_files_changes(dirs: &Vec<ScannedEntry>, system: &SystemInfo, now: &str) -> (r: Vec<
    DetectedChange,
>)
    ensures
        r@.len() == dirs@.len(),
        forall|i: int|
            0 <= i < r@.len() ==> {
                let c = (#[trigger] r@[i])@;
                &&& c.title == dirs@[i].name@
                &&& c.cmd == "start \"\" \""@ + dirs@[i].path@ + "\""@
                &&& c.path == Some(dirs@[i].path@)
                &&& stamped(
                    c,
                    "applications"@,
                    EntryType::Application,
                    "application"@,
                    system@,
                    now@,
                )
            },
{
    let tag = application_tag();
    let mut r: Vec<DetectedChange> = Vec::new();
    let mut i: usize = 0;
    while i < dirs.len()
        invariant
            0 <= i <= dirs@.len(),
            tag@ == "application"@,
            r@.len() == i,
            forall|k: int|
                0 <= k < i ==> {
                    let c = (#[trigger] r@[k])@;
                    &&& c.title == dirs@[k].name@
                    &&& c.cmd == "start \"\" \""@ + dirs@[k].path@ + "\""@
                    &&& c.path == Some(dirs@[k].path@)
                    &&& stamped(
                        c,
                        "applications"@,
                        EntryType::Application,
                        "application"@,
                        system@,
                        now@,
                    )
                },
        decreases dirs@.len() - i,
    {
        let d = &dirs[i];
        let title = d.name.clone();
        let path = d.path.clone();
        let cmd = concat3("start \"\" \"", path.as_str(), "\"");
        let c = make_change(
            title,
            cmd,
            Some(path),
            "applications",
            EntryType::Application,
            &tag,
            system,
            now,
        );
        r.push(c);
        i = i + 1;
    }
    r
}

/// Detect Homebrew package changes.
#[derive(Debug, Default)]
pub struct BrewDetector;

/// Detect global npm package changes.
#[derive(Debug, Default)]
pub struct NpmDetector;

/// Detect cargo-installed crates.
#[derive(Debug, Default)]
pub struct CargoDetector;

/// Detect pip-installed packages.
#[derive(Debug, Default)]
pub struct PipDetector;

/// Detect watched dotfile changes.
#[derive(Debug)]
pub struct DotfileDetector {
    /// The watched paths.
    pub paths: Vec<String>,
}

/// Detect macOS defaults changes.
#[derive(Debug, Default)]
pub struct MacDefaultsDetector;

/// Detect installed macOS applications.
#[derive(Debug, Default)]
pub struct AppDetector;

/// Detect apt/dpkg installed packages.
#[derive(Debug, Default)]
pub struct AptDetector;

/// Detect dnf installed packages.
#[derive(Debug, Default)]
pub struct DnfDetector;

/// Detect yum installed packages.
#[derive(Debug, Default)]
pub struct YumDetector;

/// Detect pacman installed packages.
#[derive(Debug, Default)]
pub struct PacmanDetector;

/// Detect flatpak installed applications.
#[derive(Debug, Default)]
pub struct FlatpakDetector;

/// Detect snap installed applications.
#[derive(Debug, Default)]
pub struct SnapDetector;

/// Detect winget packages.
#[derive(Debug, Default)]
pub struct WingetDetector;

/// Detect Microsoft Store packages via winget.
#[derive(Debug, Default)]
pub struct WingetStoreDetector;

/// Detect Chocolatey packages.
#[derive(Debug, Default)]
pub struct ChocolateyDetector;

/// Detect Scoop packages.
#[derive(Debug, Default)]
pub struct ScoopDetector;

/// Detect Windows applications installed under Program Files.
#[derive(Debug, Default)]
pub struct ProgramFilesDetector;

/// Detect Linux desktop applications from .desktop files.
#[derive(Debug, Default)]
pub struct DesktopAppDetector;

impl BrewDetector {
    /// Create a new Homebrew detector.
    pub fn new() -> Self {
        BrewDetector
    }

    /// Return the detector name.
    pub fn name(&self) -> (r: &'static str)
        ensures
            r@ == "homebrew"@,
    {
        "homebrew"
    }
}

impl NpmDetector {
    /// Create a new npm detector.
    pub fn new() -> Self {
        NpmDetector
    }

    /// Return the detector name.
    pub fn name(&self) -> (r: &'static str)
        ensures
            r@ == "npm"@,
    {
        "npm"
    }
}

impl CargoDetector {
    /// Create a new cargo detector.
    pub fn new() -> Self {
        CargoDetector
    }

    /// Return the detector name.
    pub fn name(&self) -> (r: &'static str)
        ensures
            r@ == "cargo"@,
    {
        "cargo"
    }
}

impl PipDetector {
    /// Create a new pip detector.
    pub fn new() -> Self {
        PipDetector
    }

    /// Return the detector name.
    pub fn name(&self) -> (r: &'static str)
        ensures
            r@ == "pip"@,
    {
        "pip"
    }
}

impl DotfileDetector {
    /// Create a dotfile detector with an explicit list of paths.
    pub fn new(paths: Vec<String>) -> (r: Self)
        ensures
            r.paths@ == paths@,
    {
        DotfileDetector { paths }
    }

    /// Return the detector name.
    pub fn name(&self) -> (r: &'static str)
        ensures
            r@ == "dotfiles"@,
    {
        "dotfiles"
    }
}

impl MacDefaultsDetector {
    /// Create a new macOS defaults detector.
    pub fn new() -> Self {
        MacDefaultsDetector
    }

    /// Return the detector name.
    pub fn name(&self) -> (r: &'static str)
        ensures
            r@ == "mac_defaults"@,
    {
        "mac_defaults"
    }
}

impl AppDetector {
    /// Create a new application detector.
    pub fn new() -> Self {
        AppDetector
    }

    /// Return the detector name.
    pub fn name(&self) -> (r: &'static str)
        ensures
            r@ == "applications"@,
    {
        "applications"
    }
}

impl AptDetector {
    /// Create a new apt detector.
    pub fn new() -> Self {
        AptDetector
    }

    /// Return the detector name.
    pub fn name(&self) -> (r: &'static str)
        ensures
            r@ == "apt"@,
    {
        "apt"
    }
}

impl DnfDetector {
    /// Create a new dnf detector.
    pub fn new() -> Self {
        DnfDetector
    }

    /// Return the detector name.
    pub fn name(&self) -> (r: &'static str)
        ensures
            r@ == "dnf"@,
    {
        "dnf"
    }
}

impl YumDetector {
    /// Create a new yum detector.
    pub fn new() -> Self {
        YumDetector
    }

    /// Return the detector name.
    pub fn name(&self) -> (r: &'static str)
        ensures
            r@ == "yum"@,
    {
        "yum"
    }
}

impl PacmanDetector {
    /// Create a new pacman detector.
    pub fn new() -> Self {
        PacmanDetector
    }

    /// Return the detector name.
    pub fn name(&self) -> (r: &'static str)
        ensures
            r@ == "pacman"@,
    {
        "pacman"
    }
}

impl FlatpakDetector {
    /// Create a new flatpak detector.
    pub fn new() -> Self {
        FlatpakDetector
    }

    /// Return the detector name.
    pub fn name(&self) -> (r: &'static str)
        ensures
            r@ == "flatpak"@,
    {
        "flatpak"
    }
}

impl SnapDetector {
    /// Create a new snap detector.
    pub fn new() -> Self {
        SnapDetector
    }

    /// Return the detector name.
    pub fn name(&self) -> (r: &'static str)
        ensures
            r@ == "snap"@,
    {
        "snap"
    }
}

impl WingetDetector {
    /// Create a new winget detector.
    pub fn new() -> Self {
        WingetDetector
    }

    /// Return the detector name.
    pub fn name(&self) -> (r: &'static str)
        ensures
            r@ == "winget"@,
    {
        "winget"
    }
}

impl WingetStoreDetector {
    /// Create a new winget store detector.
    pub fn new() -> Self {
        WingetStoreDetector
    }

    /// Return the detector name.
    pub fn name(&self) -> (r: &'static str)
        ensures
            r@ == "msstore"@,
    {
        "msstore"
    }
}

impl ChocolateyDetector {
    /// Create a new Chocolatey detector.
    pub fn new() -> Self {
        ChocolateyDetector
    }

    /// Return the detector name.
    pub fn name(&self) -> (r: &'static str)
        ensures
            r@ == "chocolatey"@,
    {
        "chocolatey"
    }
}

impl ScoopDetector {
    /// Create a new Scoop detector.
    pub fn new() -> Self {
        ScoopDetector
    }

    /// Return the detector name.
    pub fn name(&self) -> (r: &'static str)
        ensures
            r@ == "scoop"@,
    {
        "scoop"
    }
}

impl ProgramFilesDetector {
    /// Create a new Program Files detector.
    pub fn new() -> Self {
        ProgramFilesDetector
    }

    /// Return the detector name.
    pub fn name(&self) -> (r: &'static str)
        ensures
            r@ == "program_files"@,
    {
        "program_files"
    }
}

impl DesktopAppDetector {
    /// Create a new desktop application detector.
    pub fn new() -> Self {
        DesktopAppDetector
    }

    /// Return the detector name.
    pub fn name(&self) -> (r: &'static str)
        ensures
            r@ == "applications"@,
    {
        "applications"
    }
}

/// The fixed, ordered detector list for each platform identifier.
pub open spec fn spec_detector_sources(os: Seq<char>) -> Seq<Seq<char>> {
    if os == "macos"@ {
        seq![
            "homebrew"@,
            "npm"@,
            "cargo"@,
            "pip"@,
            "dotfiles"@,
            "mac_defaults"@,
            "applications"@,
        ]
    } else if os == "linux"@ {
        seq![
            "apt"@,
            "dnf"@,
            "yum"@,
            "pacman"@,
            "flatpak"@,
            "snap"@,
            "applications"@,
            "npm"@,
            "cargo"@,
            "pip"@,
            "dotfiles"@,
        ]
    } else if os == "windows"@ {
        seq![
            "winget"@,
            "msstore"@,
            "chocolatey"@,
            "scoop"@,
            "program_files"@,
            "npm"@,
            "cargo"@,
            "pip"@,
        ]
    } else {
        seq!["npm"@, "cargo"@, "pip"@]
    }
}

/// Append the string to the list.
fn push_name(v: &mut Vec<String>, s: &str)
    ensures
        strings_view(final(v)@) == strings_view(old(v)@).push(s@),
{
    let ghost v0 = strings_view(v@);
    v.push(String::from_str(s));
    proof {
        assert(strings_view(v@) =~= v0.push(s@));
    }
}

/// The registry: the ordered detector source names that apply to the
/// platform the identifier names.
pub fn default_detector_sources(os: &str) -> (r: Vec<String>)
    ensures
        strings_view(r@) == spec_detector_sources(os@),
{
    let mut r: Vec<String> = Vec::new();
    if crate::text::str_eq(os, "macos") {
        push_name(&mut r, "homebrew");
        push_name(&mut r, "npm");
        push_name(&mut r, "cargo");
        push_name(&mut r, "pip");
        push_name(&mut r, "dotfiles");
        push_name(&mut r, "mac_defaults");
        push_name(&mut r, "applications");
        proof {
            assert(strings_view(r@) =~= spec_detector_sources(os@));
        }
    } else if crate::text::str_eq(os, "linux") {
        push_name(&mut r, "apt");
        push_name(&mut r, "dnf");
        push_name(&mut r, "yum");
        push_name(&mut r, "pacman");
        push_name(&mut r, "flatpak");
        push_name(&mut r, "snap");
        push_name(&mut r, "applications");
        push_name(&mut r, "npm");
        push_name(&mut r, "cargo");
        push_name(&mut r, "pip");
        push_name(&mut r, "dotfiles");
        proof {
            assert(strings_view(r@) =~= spec_detector_sources(os@));
        }
    } else if crate::text::str_eq(os, "windows") {
        push_name(&mut r, "winget");
        push_name(&mut r, "msstore");
        push_name(&mut r, "chocolatey");
        push_name(&mut r, "scoop");
        push_name(&mut r, "program_files");
        push_name(&mut r, "npm");
        push_name(&mut r, "cargo");
        push_name(&mut r, "pip");
        proof {
            assert(strings_view(r@) =~= spec_detector_sources(os@));
        }
    } else {
        push_name(&mut r, "npm");
        push_name(&mut r, "cargo");
        push_name(&mut r, "pip");
        proof {
            assert(strings_view(r@) =~= spec_detector_sources(os@));
        }
    }
    r
}

/// What joining the detectors' results yields: the first hard error, or
/// else every detector's changes concatenated in order.
pub open spec fn spec_merge(rs: Seq<CoreResult<Vec<DetectedChange>>>) -> Result<
    Seq<DetectedChange>,
    CoreError,
>
    decreases rs.len(),
{
    if rs.len() == 0 {
        Ok(Seq::empty())
    } else {
        match rs[0] {
            Err(e) => Err(e),
            Ok(v) => match spec_merge(rs.drop_first()) {
                Ok(tail) => Ok(v@ + tail),
                Err(e) => Err(e),
            },
        }
    }
}

/// Join the detectors' results: fail with the first detector's hard error,
/// with nothing partial returned; on success concatenate every detector's
/// changes in order.
pub fn merge_scan_results(results: Vec<CoreResult<Vec<DetectedChange>>>) -> (r: CoreResult<Vec<
    DetectedChange,
>>)
    ensures
        match r {
            Ok(v) => spec_merge(results@) == Result::<Seq<DetectedChange>, CoreError>::Ok(v@),
            Err(e) => spec_merge(results@) == Result::<Seq<DetectedChange>, CoreError>::Err(e),
        },
{
    let ghost orig = results@;
    let mut rest = results;
    let mut acc: Vec<DetectedChange> = Vec::new();
    proof {
        assert(acc@ + Seq::<DetectedChange>::empty() =~= acc@);
    }
    while rest.len() > 0
        invariant
            orig == results@,
            match spec_merge(rest@) {
                Ok(tail) => spec_merge(orig) == Result::<Seq<DetectedChange>, CoreError>::Ok(
                    acc@ + tail,
                ),
                Err(e) => spec_merge(orig) == Result::<Seq<DetectedChange>, CoreError>::Err(e),
            },
        decreases rest@.len(),
    {
        let ghost rest0 = rest@;
        let first = rest.remove(0);
        proof {
            assert(rest@ =~= rest0.drop_first());
        }
        match first {
            Ok(mut v) => {
                let ghost acc0 = acc@;
                let ghost v0 = v@;
                acc.append(&mut v);
                proof {
                    if spec_merge(rest@) is Ok {
                        assert(acc0 + (v0 + spec_merge(rest@)->Ok_0) =~= (acc0 + v0) + spec_merge(
                            rest@,
                        )->Ok_0);
                    }
                }
            },
            Err(e) => {
                proof {
                    assert(rest0[0] == Result::<Vec<DetectedChange>, CoreError>::Err(e));
                    assert(spec_merge(rest0) == Result::<Seq<DetectedChange>, CoreError>::Err(e));
                }
                return Err(e);
            },
        }
    }
    proof {
        assert(rest@.len() == 0);
        assert(acc@ + Seq::<DetectedChange>::empty() =~= acc@);
    }
    Ok(acc)
}

} // verus!
