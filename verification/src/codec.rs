//! The entry document codec: frontmatter and body, rendered and parsed
//! line by line.
//!
//! A document is the literal line `---`, nine `key: value` lines in fixed
//! order, the literal line `---`, and a body holding a `# Rationale`
//! section and a `# Verification` section. The parser reads back exactly
//! what the renderer wrote.

use vstd::prelude::*;
use crate::domain::CoreError;
use crate::domain::CoreResult;
use crate::domain::Entry;
use crate::domain::EntryStatus;
use crate::domain::EntryType;
use crate::domain::EntryV;
use crate::domain::Rationale;
use crate::domain::SystemInfo;
use crate::domain::Tag;
use crate::domain::tags_view;
use crate::domain::tags_wf;
use crate::text::chars_eq;
use crate::text::chars_subrange;
use crate::text::chars_to_string;
use crate::text::first_sub_index;
use crate::text::has_content;
use crate::text::has_prefix;
use crate::text::has_sub;
use crate::text::join_lines;
use crate::text::lemma_first_sub_index;
use crate::text::line_views;
use crate::text::lines_of;
use crate::text::no_newline;
use crate::text::split_lines;
use crate::text::starts_with_chars;
use crate::text::str_to_chars;
use crate::text::unlines_of;

verus! {

/// The pieces joined with the separator between each pair.
pub open spec fn join_sep(parts: Seq<Seq<char>>, sep: Seq<char>) -> Seq<char>
    decreases parts.len(),
{
    if parts.len() <= 1 {
        if parts.len() == 0 {
            Seq::<char>::empty()
        } else {
            parts[0]
        }
    } else {
        parts[0] + sep + join_sep(parts.drop_first(), sep)
    }
}

/// The pieces of the text split at every occurrence of the separator.
pub open spec fn split_list(s: Seq<char>, sep: Seq<char>) -> Seq<Seq<char>>
    decreases s.len(),
{
    if sep.len() == 0 {
        seq![s]
    } else {
        let f = first_sub_index(s, sep);
        if f < 0 || f + sep.len() > s.len() {
            seq![s]
        } else {
            seq![s.subrange(0, f)] + split_list(s.subrange(f + sep.len(), s.len() as int), sep)
        }
    }
}

/// Splitting the join of pieces gives the pieces back, for a two-character
/// separator whose characters differ, when no piece contains it.
pub proof fn lemma_split_join(parts: Seq<Seq<char>>, sep: Seq<char>)
    requires
        sep.len() == 2,
        sep[0] != sep[1],
        parts.len() >= 1,
        forall|i: int| 0 <= i < parts.len() ==> !has_sub(#[trigger] parts[i], sep),
    ensures
        split_list(join_sep(parts, sep), sep) == parts,
    decreases parts.len(),
{
    if parts.len() == 1 {
        let s = parts[0];
        lemma_first_sub_index(s, sep);
        if first_sub_index(s, sep) >= 0 {
            assert(crate::text::matches_at(s, sep, first_sub_index(s, sep)));
            assert(has_sub(s, sep));
            assert(false);
        }
        assert(split_list(join_sep(parts, sep), sep) =~~= parts);
    } else {
        let p0 = parts[0];
        let rest = parts.drop_first();
        assert(forall|i: int| 0 <= i < rest.len() ==> !has_sub(#[trigger] rest[i], sep)) by {
            assert(forall|i: int| 0 <= i < rest.len() ==> rest[i] == parts[i + 1]);
        }
        lemma_split_join(rest, sep);
        let tail = join_sep(rest, sep);
        let s = join_sep(parts, sep);
        assert(s == p0 + sep + tail);
        let n0 = p0.len() as int;
        assert(crate::text::matches_at(s, sep, n0)) by {
            assert(s.subrange(n0, n0 + 2) =~= sep);
        }
        assert forall|j: int| 0 <= j < n0 implies !crate::text::matches_at(s, sep, j) by {
            if j + 2 <= n0 {
                if crate::text::matches_at(s, sep, j) {
                    assert(p0.subrange(j, j + 2) =~= s.subrange(j, j + 2));
                    assert(crate::text::matches_at(p0, sep, j));
                    assert(has_sub(p0, sep));
                    assert(false);
                }
            } else {
                assert(j == n0 - 1);
                if crate::text::matches_at(s, sep, j) {
                    assert(s.subrange(j, j + 2)[1] == sep[1]);
                    assert(s[n0] == sep[0]);
                    assert(false);
                }
            }
        }
        lemma_first_sub_index(s, sep);
        let f = first_sub_index(s, sep);
        assert(f == n0) by {
            assert(crate::text::matches_at(s, sep, n0));
            assert(has_sub(s, sep));
            if f == -1 {
                assert(false);
            }
            if f < n0 {
                assert(crate::text::matches_at(s, sep, f));
                assert(false);
            }
            if f > n0 {
                assert(!crate::text::matches_at(s, sep, n0));
                assert(false);
            }
        }
        assert(s.subrange(0, n0) =~= p0);
        assert(s.subrange(n0 + 2, s.len() as int) =~= tail);
        assert(split_list(s, sep) == seq![p0] + split_list(tail, sep));
        assert(seq![p0] + rest =~= parts);
    }
}

/// The first index whose line equals the target, or `-1`.
pub open spec fn find_line(ls: Seq<Seq<char>>, target: Seq<char>) -> int
    decreases ls.len(),
{
    if ls.len() == 0 {
        -1
    } else if ls[0] == target {
        0
    } else {
        let r = find_line(ls.drop_first(), target);
        if r == -1 {
            -1
        } else {
            1 + r
        }
    }
}

/// `find_line` names the first matching line, when there is one.
pub proof fn lemma_find_line(ls: Seq<Seq<char>>, target: Seq<char>)
    ensures
        find_line(ls, target) >= -1,
        find_line(ls, target) == -1 ==> forall|j: int| 0 <= j < ls.len() ==> ls[j] != target,
        find_line(ls, target) >= 0 ==> find_line(ls, target) < ls.len() && ls[find_line(
            ls,
            target,
        )] == target,
        find_line(ls, target) >= 0 ==> forall|j: int|
            0 <= j < find_line(ls, target) ==> ls[j] != target,
    decreases ls.len(),
{
    if ls.len() > 0 && ls[0] != target {
        let rest = ls.drop_first();
        lemma_find_line(rest, target);
        let g = find_line(rest, target);
        if g == -1 {
            assert forall|j: int| 0 <= j < ls.len() implies ls[j] != target by {
                if j > 0 {
                    assert(rest[j - 1] == ls[j]);
                }
            }
        } else {
            assert(rest[g] == ls[g + 1]);
            assert forall|j: int| 0 <= j < find_line(ls, target) implies ls[j] != target by {
                if j > 0 {
                    assert(rest[j - 1] == ls[j]);
                }
            }
        }
    }
}

/// Find the first line equal to the target, at or after `start`.
fn find_line_from(lines: &Vec<Vec<char>>, start: usize, target: &Vec<char>) -> (r: Option<usize>)
    requires
        start <= lines@.len(),
    ensures
        ({
            let f = find_line(line_views(lines@).subrange(start as int, lines@.len() as int),
                target@);
            match r {
                Some(p) => start <= p < lines@.len() && f == p - start,
                None => f == -1,
            }
        }),
{
    let ghost sub = line_views(lines@).subrange(start as int, lines@.len() as int);
    let mut i: usize = start;
    while i < lines.len()
        invariant
            start <= i <= lines@.len(),
            sub == line_views(lines@).subrange(start as int, lines@.len() as int),
            forall|j: int| 0 <= j < i - start ==> sub[j] != target@,
        decreases lines@.len() - i,
    {
        proof {
            assert(sub[i - start] == lines@[i as int]@);
        }
        if chars_eq(&lines[i], target) {
            proof {
                lemma_find_line(sub, target@);
                let f = find_line(sub, target@);
                assert(sub[i - start] == target@);
                assert(f == i - start) by {
                    if f == -1 {
                        assert(sub[i - start] != target@);
                        assert(false);
                    } else if f < i - start {
                        assert(sub[f] != target@);
                        assert(sub[f] == target@);
                        assert(false);
                    } else if f > i - start {
                        assert(sub[i - start] != target@);
                        assert(false);
                    }
                }
            }
            return Some(i);
        }
        i = i + 1;
    }
    proof {
        lemma_find_line(sub, target@);
        let f = find_line(sub, target@);
        if f >= 0 {
            assert(sub[f] != target@);
            assert(sub[f] == target@);
        }
    }
    None
}

/// The index of the first line that opens a section heading (`# ` prefix),
/// or the number of lines.
pub open spec fn first_heading(ls: Seq<Seq<char>>) -> int
    decreases ls.len(),
{
    if ls.len() == 0 {
        0
    } else if has_prefix(ls[0], "# "@) {
        0
    } else {
        1 + first_heading(ls.drop_first())
    }
}

/// `first_heading` marks the first heading line, if any.
pub proof fn lemma_first_heading(ls: Seq<Seq<char>>)
    ensures
        0 <= first_heading(ls) <= ls.len(),
        forall|j: int| 0 <= j < first_heading(ls) ==> !has_prefix(#[trigger] ls[j], "# "@),
        first_heading(ls) < ls.len() ==> has_prefix(ls[first_heading(ls)], "# "@),
    decreases ls.len(),
{
    if ls.len() > 0 && !has_prefix(ls[0], "# "@) {
        let rest = ls.drop_first();
        lemma_first_heading(rest);
        assert forall|j: int| 0 <= j < first_heading(ls) implies !has_prefix(ls[j], "# "@) by {
            if j > 0 {
                assert(rest[j - 1] == ls[j]);
            }
        }
        if first_heading(ls) < ls.len() {
            assert(rest[first_heading(rest)] == ls[first_heading(ls)]);
        }
    }
}

/// The lines with leading empty lines removed.
pub open spec fn drop_lead_empty(ls: Seq<Seq<char>>) -> Seq<Seq<char>>
    decreases ls.len(),
{
    if ls.len() > 0 && ls[0].len() == 0 {
        drop_lead_empty(ls.drop_first())
    } else {
        ls
    }
}

/// The lines with trailing empty lines removed.
pub open spec fn drop_trail_empty(ls: Seq<Seq<char>>) -> Seq<Seq<char>>
    decreases ls.len(),
{
    if ls.len() > 0 && ls.last().len() == 0 {
        drop_trail_empty(ls.drop_last())
    } else {
        ls
    }
}

/// A section's content: its lines trimmed of leading and trailing blank
/// lines and joined back with newlines.
pub open spec fn section_text(ls: Seq<Seq<char>>) -> Seq<char> {
    unlines_of(drop_trail_empty(drop_lead_empty(ls)))
}

/// Split the buffer at every occurrence of the separator.
pub fn split_by_sep(v: &Vec<char>, sep: &Vec<char>) -> (r: Vec<Vec<char>>)
    requires
        sep@.len() >= 1,
    ensures
        line_views(r@) == split_list(v@, sep@),
        r@.len() >= 1,
{
    let ghost whole = v@;
    let mut done: Vec<Vec<char>> = Vec::new();
    let mut cur = crate::text::chars_subrange(v, 0, v.len());
    proof {
        assert(cur@ =~= whole);
        assert(line_views(done@) + split_list(cur@, sep@) =~~= split_list(whole, sep@));
    }
    loop
        invariant
            sep@.len() >= 1,
            whole == v@,
            line_views(done@) + split_list(cur@, sep@) == split_list(whole, sep@),
        decreases cur@.len(),
    {
        let cn = cur.len();
        let found = crate::text::find_sub(&cur, sep);
        match found {
            Some(p) => {
                proof {
                    lemma_first_sub_index(cur@, sep@);
                    let f = first_sub_index(cur@, sep@);
                    assert(f == p as int) by {
                        if f == -1 {
                            assert(!has_sub(cur@, sep@));
                            assert(crate::text::matches_at(cur@, sep@, p as int));
                            assert(false);
                        } else if f < p as int {
                            assert(!crate::text::matches_at(cur@, sep@, f));
                            assert(crate::text::matches_at(cur@, sep@, f));
                            assert(false);
                        } else if f > p as int {
                            assert(!crate::text::matches_at(cur@, sep@, p as int));
                            assert(crate::text::matches_at(cur@, sep@, p as int));
                            assert(false);
                        }
                    }
                }
                let ghost done0 = line_views(done@);
                let ghost cur0 = cur@;
                let piece = crate::text::chars_subrange(&cur, 0, p);
                let next = crate::text::chars_subrange(&cur, p + sep.len(), cn);
                done.push(piece);
                cur = next;
                proof {
                    assert(line_views(done@) =~~= done0.push(cur0.subrange(0, p as int)));
                    assert(split_list(cur0, sep@) == seq![cur0.subrange(0, p as int)]
                        + split_list(cur@, sep@));
                    assert(done0.push(cur0.subrange(0, p as int)) + split_list(cur@, sep@)
                        =~~= done0 + (seq![cur0.subrange(0, p as int)] + split_list(cur@, sep@)));
                }
            },
            None => {
                proof {
                    lemma_first_sub_index(cur@, sep@);
                    let f = first_sub_index(cur@, sep@);
                    if f >= 0 {
                        assert(crate::text::matches_at(cur@, sep@, f));
                        assert(has_sub(cur@, sep@));
                        assert(false);
                    }
                    assert(split_list(cur@, sep@) == seq![cur@]);
                }
                let ghost done0 = line_views(done@);
                let ghost curv = cur@;
                done.push(cur);
                proof {
                    assert(line_views(done@) =~~= done0.push(curv));
                    assert(done0.push(curv) =~~= done0 + seq![curv]);
                    assert(line_views(done@) =~~= split_list(whole, sep@));
                }
                return done;
            },
        }
    }
}

/// `drop_lead_empty` keeps exactly the suffix from the first nonempty line.
pub proof fn lemma_drop_lead_empty_is_suffix(ls: Seq<Seq<char>>, a: int)
    requires
        0 <= a <= ls.len(),
        forall|j: int| 0 <= j < a ==> ls[j].len() == 0,
        a == ls.len() || ls[a].len() > 0,
    ensures
        drop_lead_empty(ls) == ls.subrange(a, ls.len() as int),
    decreases a,
{
    if a == 0 {
        assert(ls.subrange(0, ls.len() as int) =~= ls);
    } else {
        lemma_drop_lead_empty_is_suffix(ls.drop_first(), a - 1);
        assert(ls.drop_first().subrange(a - 1, ls.drop_first().len() as int) =~= ls.subrange(
            a,
            ls.len() as int,
        ));
    }
}

/// `drop_trail_empty` keeps exactly the prefix up to the last nonempty line.
pub proof fn lemma_drop_trail_empty_is_prefix(ls: Seq<Seq<char>>, b: int)
    requires
        0 <= b <= ls.len(),
        forall|j: int| b <= j < ls.len() ==> ls[j].len() == 0,
        b == 0 || ls[b - 1].len() > 0,
    ensures
        drop_trail_empty(ls) == ls.subrange(0, b),
    decreases ls.len() - b,
{
    if b == ls.len() {
        if ls.len() > 0 && ls.last().len() == 0 {
            assert(ls[b - 1].len() > 0);
            assert(false);
        }
        assert(ls.subrange(0, ls.len() as int) =~= ls);
    } else {
        lemma_drop_trail_empty_is_prefix(ls.drop_last(), b);
        assert(ls.drop_last().subrange(0, b) =~= ls.subrange(0, b));
    }
}

/// Copy the lines in `[from, to)`.
pub fn lines_subrange(lines: &Vec<Vec<char>>, from: usize, to: usize) -> (r: Vec<Vec<char>>)
    requires
        from <= to <= lines@.len(),
    ensures
        line_views(r@) == line_views(lines@).subrange(from as int, to as int),
{
    let mut r: Vec<Vec<char>> = Vec::new();
    let mut i: usize = from;
    proof {
        assert(line_views(r@) =~~= line_views(lines@).subrange(from as int, from as int));
    }
    while i < to
        invariant
            from <= i <= to <= lines@.len(),
            line_views(r@) == line_views(lines@).subrange(from as int, i as int),
        decreases to - i,
    {
        let ghost r0 = line_views(r@);
        let l = crate::text::chars_subrange(&lines[i], 0, lines[i].len());
        r.push(l);
        proof {
            assert(l@ =~= lines@[i as int]@);
            assert(line_views(r@) =~~= r0.push(lines@[i as int]@));
            assert(line_views(lines@).subrange(from as int, i + 1 as int) =~~= line_views(
                lines@,
            ).subrange(from as int, i as int).push(lines@[i as int]@));
        }
        i = i + 1;
    }
    r
}

/// Find the index of the first heading line (`# ` prefix), or the line
/// count.
fn find_first_heading(lines: &Vec<Vec<char>>) -> (r: usize)
    ensures
        r == first_heading(line_views(lines@)),
        r <= lines@.len(),
{
    let marker = str_to_chars("# ");
    proof {
        assert(marker@ =~= "# "@);
    }
    let ghost all = line_views(lines@);
    let mut i: usize = 0;
    while i < lines.len()
        invariant
            0 <= i <= lines@.len(),
            all == line_views(lines@),
            marker@ == "# "@,
            forall|j: int| 0 <= j < i ==> !has_prefix(#[trigger] all[j], "# "@),
        decreases lines@.len() - i,
    {
        proof {
            assert(all[i as int] == lines@[i as int]@);
        }
        if starts_with_chars(&lines[i], &marker) {
            proof {
                lemma_first_heading(all);
                let h = first_heading(all);
                assert(h == i as int) by {
                    if h < i as int {
                        assert(!has_prefix(all[h], "# "@));
                        assert(has_prefix(all[h], "# "@));
                        assert(false);
                    } else if h > i as int {
                        assert(!has_prefix(all[i as int], "# "@));
                        assert(false);
                    }
                }
            }
            return i;
        }
        i = i + 1;
    }
    proof {
        lemma_first_heading(all);
        let h = first_heading(all);
        if h < all.len() {
            assert(!has_prefix(all[h], "# "@));
            assert(has_prefix(all[h], "# "@));
        }
    }
    lines.len()
}

/// A section's content as one buffer: the given lines trimmed of leading
/// and trailing blank lines and joined with newlines.
fn section_content(sect: &Vec<Vec<char>>) -> (r: Vec<char>)
    ensures
        r@ == section_text(line_views(sect@)),
{
    let ghost all = line_views(sect@);
    let n = sect.len();
    let mut a: usize = 0;
    while a < n && sect[a].len() == 0
        invariant
            0 <= a <= n,
            n == sect@.len(),
            all == line_views(sect@),
            forall|j: int| 0 <= j < a ==> all[j].len() == 0,
        decreases n - a,
    {
        proof {
            assert(all[a as int] == sect@[a as int]@);
        }
        a = a + 1;
    }
    if a == n {
        proof {
            lemma_drop_lead_empty_is_suffix(all, n as int);
            assert(all.subrange(n as int, n as int) =~= Seq::<Seq<char>>::empty());
            lemma_drop_trail_empty_is_prefix(Seq::<Seq<char>>::empty(), 0);
            assert(Seq::<Seq<char>>::empty().subrange(0, 0) =~= Seq::<Seq<char>>::empty());
        }
        return Vec::new();
    }
    proof {
        assert(all[a as int] == sect@[a as int]@);
        assert(all[a as int].len() > 0);
    }
    let mut b: usize = n;
    while b > a + 1 && sect[b - 1].len() == 0
        invariant
            a + 1 <= b <= n,
            n == sect@.len(),
            all == line_views(sect@),
            forall|j: int| b <= j < n ==> all[j].len() == 0,
        decreases b,
    {
        proof {
            assert(all[b - 1] == sect@[b - 1]@);
        }
        b = b - 1;
    }
    let kept = lines_subrange(sect, a, b);
    proof {
        lemma_drop_lead_empty_is_suffix(all, a as int);
        let tail = all.subrange(a as int, n as int);
        assert(b == a + 1 || all[b - 1].len() > 0) by {
            if b > a + 1 {
                assert(all[b - 1] == sect@[b - 1]@);
            }
        }
        assert(tail[(b - a - 1) as int].len() > 0);
        lemma_drop_trail_empty_is_prefix(tail, (b - a) as int);
        assert(tail.subrange(0, (b - a) as int) =~= all.subrange(a as int, b as int));
    }
    join_lines(&kept)
}

/// The ways a document can fail to parse.
#[derive(Clone, Copy, Debug, PartialEq, Eq, Structural)]
pub enum DocFault {
    /// The document does not begin with the header marker line.
    MissingHeader,
    /// The frontmatter block never reaches its closing marker line.
    UnterminatedFrontmatter,
    /// The frontmatter block is not the expected key-value lines.
    BadFrontmatter,
    /// The body has no rationale section.
    MissingRationale,
    /// The rationale section is empty or whitespace-only.
    EmptyRationale,
    /// A tag is empty or whitespace-only.
    EmptyTag,
    /// The title is empty or whitespace-only.
    EmptyTitle,
    /// The source is empty or whitespace-only.
    EmptySource,
    /// The command is empty or whitespace-only.
    EmptyCmd,
}

/// The error a parse failure surfaces as: which variant, with which text.
pub open spec fn fault_matches(e: CoreError, f: DocFault) -> bool {
    match f {
        DocFault::MissingHeader => e is Storage && e.text() == "missing frontmatter header"@,
        DocFault::UnterminatedFrontmatter => e is Storage && e.text()
            == "unterminated frontmatter"@,
        DocFault::BadFrontmatter => e is Storage && e.text() == "corrupt frontmatter"@,
        DocFault::MissingRationale => e is Storage && e.text() == "missing rationale section"@,
        DocFault::EmptyRationale => e is Validation && e.text() == "rationale cannot be empty"@,
        DocFault::EmptyTag => e is Validation && e.text() == "tag cannot be empty"@,
        DocFault::EmptyTitle => e is Validation && e.text() == "title cannot be empty"@,
        DocFault::EmptySource => e is Validation && e.text() == "source cannot be empty"@,
        DocFault::EmptyCmd => e is Validation && e.text() == "cmd cannot be empty"@,
    }
}

/// The frontmatter fields as parsed, before validation.
pub ghost struct FrontV {
    pub id: Seq<char>,
    pub title: Seq<char>,
    pub entry_type: EntryType,
    pub source: Seq<char>,
    pub cmd: Seq<char>,
    pub os: Seq<char>,
    pub arch: Seq<char>,
    pub detected_at: Seq<char>,
    pub status: EntryStatus,
    pub tags: Seq<Seq<char>>,
}

/// The value after the key prefix.
pub open spec fn field_value(l: Seq<char>, p: Seq<char>) -> Seq<char> {
    l.subrange(p.len() as int, l.len() as int)
}

/// The category a document word names, if any.
pub open spec fn word_type(w: Seq<char>) -> Option<EntryType> {
    if w == "package"@ {
        Some(EntryType::Package)
    } else if w == "config"@ {
        Some(EntryType::Config)
    } else if w == "application"@ {
        Some(EntryType::Application)
    } else if w == "script"@ {
        Some(EntryType::Script)
    } else if w == "other"@ {
        Some(EntryType::Other)
    } else {
        None
    }
}

/// The status a document word names, if any.
pub open spec fn word_status(w: Seq<char>) -> Option<EntryStatus> {
    if w == "active"@ {
        Some(EntryStatus::Active)
    } else if w == "snoozed"@ {
        Some(EntryStatus::Snoozed)
    } else if w == "ignored"@ {
        Some(EntryStatus::Ignored)
    } else {
        None
    }
}

/// The (os, arch) pair of a system line, if well formed.
pub open spec fn parse_system_line(l: Seq<char>) -> Option<(Seq<char>, Seq<char>)> {
    if !has_prefix(l, "system: {os: "@) {
        None
    } else {
        let mid = field_value(l, "system: {os: "@);
        let f = first_sub_index(mid, ", arch: "@);
        if f < 0 {
            None
        } else {
            let rest = mid.subrange(f + ", arch: "@.len(), mid.len() as int);
            if rest.len() == 0 || rest.last() != '}' {
                None
            } else {
                Some((mid.subrange(0, f), rest.subrange(0, rest.len() - 1)))
            }
        }
    }
}

/// The tag labels of a tags line, if well formed.
pub open spec fn parse_tags_line(l: Seq<char>) -> Option<Seq<Seq<char>>> {
    if !has_prefix(l, "tags: ["@) {
        None
    } else {
        let inner0 = field_value(l, "tags: ["@);
        if inner0.len() == 0 || inner0.last() != ']' {
            None
        } else {
            let inner = inner0.subrange(0, inner0.len() - 1);
            if inner.len() == 0 {
                Some(Seq::empty())
            } else {
                Some(split_list(inner, ", "@))
            }
        }
    }
}

/// The frontmatter fields of the nine lines between the markers, if well
/// formed.
pub open spec fn parse_front(fm: Seq<Seq<char>>) -> Option<FrontV> {
    if fm.len() != 9 {
        None
    } else if !has_prefix(fm[0], "id: "@) || !has_prefix(fm[1], "title: "@) || !has_prefix(
        fm[2],
        "type: "@,
    ) || !has_prefix(fm[3], "source: "@) || !has_prefix(fm[4], "cmd: "@) || !has_prefix(
        fm[6],
        "detected_at: "@,
    ) || !has_prefix(fm[7], "status: "@) {
        None
    } else {
        match (word_type(field_value(fm[2], "type: "@)), word_status(
            field_value(fm[7], "status: "@),
        ), parse_system_line(fm[5]), parse_tags_line(fm[8])) {
            (Some(ty), Some(st), Some(sys), Some(tags)) => Some(
                FrontV {
                    id: field_value(fm[0], "id: "@),
                    title: field_value(fm[1], "title: "@),
                    entry_type: ty,
                    source: field_value(fm[3], "source: "@),
                    cmd: field_value(fm[4], "cmd: "@),
                    os: sys.0,
                    arch: sys.1,
                    detected_at: field_value(fm[6], "detected_at: "@),
                    status: st,
                    tags: tags,
                },
            ),
            _ => None,
        }
    }
}

/// A section's content under the heading, if the heading occurs: the lines
/// after its first occurrence up to the next heading line, trimmed of
/// blank edges and joined.
pub open spec fn spec_section(body: Seq<Seq<char>>, heading: Seq<char>) -> Option<Seq<char>> {
    let k = find_line(body, heading);
    if k < 0 {
        None
    } else {
        let after = body.subrange(k + 1, body.len() as int);
        Some(section_text(after.subrange(0, first_heading(after))))
    }
}

/// What parsing a document text yields: the entry's view, or the first
/// fault in reading order.
pub open spec fn spec_parse(s: Seq<char>) -> Result<EntryV, DocFault> {
    let ls = lines_of(s);
    if ls[0] != "---"@ {
        Err(DocFault::MissingHeader)
    } else {
        let fidx = find_line(ls.subrange(1, ls.len() as int), "---"@);
        if fidx < 0 {
            Err(DocFault::UnterminatedFrontmatter)
        } else {
            let j = 1 + fidx;
            match parse_front(ls.subrange(1, j)) {
                None => Err(DocFault::BadFrontmatter),
                Some(f) => {
                    let body = ls.subrange(j + 1, ls.len() as int);
                    match spec_section(body, "# Rationale"@) {
                        None => Err(DocFault::MissingRationale),
                        Some(rat) => {
                            if !has_content(rat) {
                                Err(DocFault::EmptyRationale)
                            } else if exists|i: int|
                                0 <= i < f.tags.len() && !has_content(#[trigger] f.tags[i]) {
                                Err(DocFault::EmptyTag)
                            } else if !has_content(f.title) {
                                Err(DocFault::EmptyTitle)
                            } else if !has_content(f.source) {
                                Err(DocFault::EmptySource)
                            } else if !has_content(f.cmd) {
                                Err(DocFault::EmptyCmd)
                            } else {
                                let ver = match spec_section(body, "# Verification"@) {
                                    None => None,
                                    Some(t) => if t.len() == 0 {
                                        None
                                    } else {
                                        Some(t)
                                    },
                                };
                                Ok(
                                    EntryV {
                                        id: f.id,
                                        title: f.title,
                                        entry_type: f.entry_type,
                                        source: f.source,
                                        cmd: f.cmd,
                                        system: crate::domain::SystemInfoV {
                                            os: f.os,
                                            arch: f.arch,
                                        },
                                        detected_at: f.detected_at,
                                        status: f.status,
                                        tags: f.tags,
                                        rationale: rat,
                                        verification: ver,
                                    },
                                )
                            }
                        },
                    }
                },
            }
        }
    }
}

/// The word the document uses for each entry category.
pub open spec fn type_word(t: EntryType) -> Seq<char> {
    match t {
        EntryType::Package => "package"@,
        EntryType::Config => "config"@,
        EntryType::Application => "application"@,
        EntryType::Script => "script"@,
        EntryType::Other => "other"@,
    }
}

/// The word the document uses for each entry status.
pub open spec fn status_word(s: EntryStatus) -> Seq<char> {
    match s {
        EntryStatus::Active => "active"@,
        EntryStatus::Snoozed => "snoozed"@,
        EntryStatus::Ignored => "ignored"@,
    }
}

/// The nine frontmatter lines of an entry, in order.
pub open spec fn frontmatter_lines(e: EntryV) -> Seq<Seq<char>> {
    seq![
        "id: "@ + e.id,
        "title: "@ + e.title,
        "type: "@ + type_word(e.entry_type),
        "source: "@ + e.source,
        "cmd: "@ + e.cmd,
        "system: {os: "@ + e.system.os + ", arch: "@ + e.system.arch + "}"@,
        "detected_at: "@ + e.detected_at,
        "status: "@ + status_word(e.status),
        "tags: ["@ + join_sep(e.tags, ", "@) + "]"@,
    ]
}

/// The body lines of an entry: the rationale section, a blank line, and
/// the verification section.
pub open spec fn body_lines(e: EntryV) -> Seq<Seq<char>> {
    seq![Seq::<char>::empty(), "# Rationale"@] + lines_of(e.rationale) + seq![
        Seq::<char>::empty(),
        "# Verification"@,
    ] + (match e.verification {
        Some(v) => lines_of(v),
        None => Seq::<Seq<char>>::empty(),
    }) + seq![Seq::<char>::empty()]
}

/// Every line of the rendered entry document, in order.
pub open spec fn doc_lines(e: EntryV) -> Seq<Seq<char>> {
    seq!["---"@] + frontmatter_lines(e) + seq!["---"@] + body_lines(e)
}

/// The rendered entry document.
pub open spec fn spec_render(e: EntryV) -> Seq<char> {
    unlines_of(doc_lines(e))
}

/// Render the word for an entry category.
pub fn render_type_word(t: EntryType) -> (r: Vec<char>)
    ensures
        r@ == type_word(t),
{
    match t {
        EntryType::Package => {
            let r = str_to_chars("package");
            r
        },
        EntryType::Config => {
            let r = str_to_chars("config");
            r
        },
        EntryType::Application => {
            let r = str_to_chars("application");
            r
        },
        EntryType::Script => {
            let r = str_to_chars("script");
            r
        },
        EntryType::Other => {
            let r = str_to_chars("other");
            r
        },
    }
}

/// Render the word for an entry status.
pub fn render_status_word(s: EntryStatus) -> (r: Vec<char>)
    ensures
        r@ == status_word(s),
{
    match s {
        EntryStatus::Active => {
            let r = str_to_chars("active");
            r
        },
        EntryStatus::Snoozed => {
            let r = str_to_chars("snoozed");
            r
        },
        EntryStatus::Ignored => {
            let r = str_to_chars("ignored");
            r
        },
    }
}

/// A `key: value` line from a prefix and a value.
fn field_line(prefix: &str, value: &str) -> (r: Vec<char>)
    ensures
        r@ == prefix@ + value@,
{
    let mut r = str_to_chars(prefix);
    let mut v = str_to_chars(value);
    r.append(&mut v);
    r
}

/// The tag labels joined with `, `.
pub(crate) fn join_tags(tags: &Vec<Tag>) -> (r: Vec<char>)
    ensures
        r@ == join_sep(tags_view(tags@), ", "@),
{
    let ghost parts = tags_view(tags@);
    let mut r: Vec<char> = Vec::new();
    if tags.len() == 0 {
        return r;
    }
    let mut first = str_to_chars(tags[0].as_str());
    r.append(&mut first);
    proof {
        assert(parts[0] == tags@[0]@);
        assert(parts.subrange(0, 1) =~= seq![parts[0]]);
        assert(r@ =~= parts[0]);
        assert(r@ == join_sep(parts.subrange(0, 1), ", "@));
    }
    let mut i: usize = 1;
    while i < tags.len()
        invariant
            1 <= i <= tags@.len(),
            parts == tags_view(tags@),
            parts.len() == tags@.len(),
            r@ == join_sep(parts.subrange(0, i as int), ", "@),
        decreases tags@.len() - i,
    {
        let ghost prefix = parts.subrange(0, i as int);
        let mut sep = str_to_chars(", ");
        let mut next = str_to_chars(tags[i].as_str());
        r.append(&mut sep);
        r.append(&mut next);
        proof {
            assert(parts[i as int] == tags@[i as int]@);
            lemma_join_sep_push(prefix, parts[i as int], ", "@);
            assert(prefix.push(parts[i as int]) =~= parts.subrange(0, i + 1 as int));
            assert(r@ =~= join_sep(prefix, ", "@) + ", "@ + parts[i as int]);
        }
        i = i + 1;
    }
    proof {
        assert(parts.subrange(0, parts.len() as int) =~= parts);
    }
    r
}

/// Joining one more piece appends the separator and that piece.
pub proof fn lemma_join_sep_push(parts: Seq<Seq<char>>, p: Seq<char>, sep: Seq<char>)
    requires
        parts.len() >= 1,
    ensures
        join_sep(parts.push(p), sep) == join_sep(parts, sep) + sep + p,
    decreases parts.len(),
{
    if parts.len() == 1 {
        let w = parts.push(p);
        assert(w.drop_first() =~= seq![p]);
        assert(join_sep(w, sep) == w[0] + sep + join_sep(w.drop_first(), sep));
    } else {
        lemma_join_sep_push(parts.drop_first(), p, sep);
        let w = parts.push(p);
        assert(w.drop_first() =~= parts.drop_first().push(p));
        assert(join_sep(w, sep) == w[0] + sep + join_sep(w.drop_first(), sep));
        assert(join_sep(parts.push(p), sep) =~= join_sep(parts, sep) + sep + p);
    }
}

/// Render an entry into its document text.
pub fn render_entry_markdown(e: &Entry) -> (r: String)
    ensures
        r@ == spec_render(e@),
{
    let mut lines: Vec<Vec<char>> = Vec::new();
    lines.push(str_to_chars("---"));
    lines.push(field_line("id: ", e.id.as_str()));
    lines.push(field_line("title: ", e.title.as_str()));
    let tw = render_type_word(e.entry_type);
    lines.push(field_line("type: ", chars_to_string(&tw).as_str()));
    lines.push(field_line("source: ", e.source.as_str()));
    lines.push(field_line("cmd: ", e.cmd.as_str()));
    let mut sys = str_to_chars("system: {os: ");
    let mut osv = str_to_chars(e.system.os.as_str());
    let mut mid = str_to_chars(", arch: ");
    let mut archv = str_to_chars(e.system.arch.as_str());
    let mut close = str_to_chars("}");
    sys.append(&mut osv);
    sys.append(&mut mid);
    sys.append(&mut archv);
    sys.append(&mut close);
    lines.push(sys);
    lines.push(field_line("detected_at: ", e.detected_at.as_str()));
    let sw = render_status_word(e.status);
    lines.push(field_line("status: ", chars_to_string(&sw).as_str()));
    let mut tagline = str_to_chars("tags: [");
    let mut inner = join_tags(&e.tags);
    let mut bracket = str_to_chars("]");
    tagline.append(&mut inner);
    tagline.append(&mut bracket);
    lines.push(tagline);
    lines.push(str_to_chars("---"));
    lines.push(Vec::new());
    lines.push(str_to_chars("# Rationale"));
    let rat = str_to_chars(e.rationale.as_str());
    let mut rat_lines = split_lines(&rat);
    let ghost rl = line_views(rat_lines@);
    let ghost before_rat = line_views(lines@);
    proof {
        assert(rl == lines_of(e@.rationale));
        assert(before_rat =~~= seq!["---"@] + frontmatter_lines(e@) + seq!["---"@] + seq![
            Seq::<char>::empty(),
            "# Rationale"@,
        ]);
        assert(rl.subrange(0, 0) =~= Seq::<Seq<char>>::empty());
        assert(before_rat + rl.subrange(0, 0) =~~= before_rat);
        assert(rl.subrange(0, rl.len() as int) =~= rl);
    }
    while rat_lines.len() > 0
        invariant
            rat_lines@.len() <= rl.len(),
            line_views(lines@) == before_rat + rl.subrange(0, rl.len() - rat_lines@.len()),
            line_views(rat_lines@) == rl.subrange(rl.len() - rat_lines@.len(), rl.len() as int),
        decreases rat_lines@.len(),
    {
        let ghost k0 = rl.len() - rat_lines@.len();
        let ghost lv0 = line_views(lines@);
        let ghost rv0 = line_views(rat_lines@);
        let l = rat_lines.remove(0);
        lines.push(l);
        proof {
            assert(rv0[0] == rl[k0]);
            assert(line_views(lines@) =~~= lv0.push(rl[k0]));
            assert(lv0.push(rl[k0]) =~~= before_rat + rl.subrange(0, k0 + 1));
            assert(line_views(rat_lines@) =~~= rv0.drop_first());
            assert(rv0.drop_first() =~~= rl.subrange(k0 + 1, rl.len() as int));
        }
    }
    proof {
        assert(rl.subrange(0, rl.len() as int) =~= rl);
        assert(line_views(lines@) =~~= before_rat + rl);
    }
    lines.push(Vec::new());
    lines.push(str_to_chars("# Verification"));
    let ghost before_ver = line_views(lines@);
    proof {
        assert(before_ver =~~= before_rat + rl + seq![Seq::<char>::empty(), "# Verification"@]);
    }
    match &e.verification {
        Some(v) => {
            let ver = str_to_chars(v.as_str());
            let mut ver_lines = split_lines(&ver);
            let ghost vl = line_views(ver_lines@);
            proof {
                assert(vl.subrange(0, 0) =~= Seq::<Seq<char>>::empty());
                assert(before_ver + vl.subrange(0, 0) =~~= before_ver);
                assert(vl.subrange(0, vl.len() as int) =~= vl);
            }
            while ver_lines.len() > 0
                invariant
                    ver_lines@.len() <= vl.len(),
                    line_views(lines@) == before_ver + vl.subrange(0, vl.len()
                        - ver_lines@.len()),
                    line_views(ver_lines@) == vl.subrange(vl.len() - ver_lines@.len(),
                        vl.len() as int),
                decreases ver_lines@.len(),
            {
                let ghost k0 = vl.len() - ver_lines@.len();
                let ghost lv0 = line_views(lines@);
                let ghost rv0 = line_views(ver_lines@);
                let l = ver_lines.remove(0);
                lines.push(l);
                proof {
                    assert(rv0[0] == vl[k0]);
                    assert(line_views(lines@) =~~= lv0.push(vl[k0]));
                    assert(lv0.push(vl[k0]) =~~= before_ver + vl.subrange(0, k0 + 1));
                    assert(line_views(ver_lines@) =~~= rv0.drop_first());
                    assert(rv0.drop_first() =~~= vl.subrange(k0 + 1, vl.len() as int));
                }
            }
            proof {
                assert(vl.subrange(0, vl.len() as int) =~= vl);
                assert(line_views(lines@) =~~= before_ver + vl);
            }
        },
        None => {
            proof {
                assert(line_views(lines@) =~~= before_ver + Seq::<Seq<char>>::empty());
            }
        },
    }
    lines.push(Vec::new());
    proof {
        let verpart = match e@.verification {
            Some(v) => lines_of(v),
            None => Seq::<Seq<char>>::empty(),
        };
        assert(line_views(lines@) =~~= before_ver + verpart + seq![Seq::<char>::empty()]);
        assert(line_views(lines@) =~~= doc_lines(e@));
    }
    let joined = join_lines(&lines);
    let r = chars_to_string(&joined);
    r
}

/// Make a tag from each piece, rejecting any piece without visible text.
pub(crate) fn make_tags(pieces: &Vec<Vec<char>>) -> (r: CoreResult<Vec<Tag>>)
    ensures
        match r {
            Ok(tags) => {
                &&& tags_view(tags@) == line_views(pieces@)
                &&& tags_wf(tags@)
                &&& forall|k: int|
                    0 <= k < pieces@.len() ==> has_content(#[trigger] line_views(pieces@)[k])
            },
            Err(e) => {
                &&& e is Validation
                &&& e.text() == "tag cannot be empty"@
                &&& exists|i: int|
                    0 <= i < pieces@.len() && !has_content(#[trigger] line_views(pieces@)[i])
            },
        },
{
    let mut tags: Vec<Tag> = Vec::new();
    let mut ti: usize = 0;
    proof {
        assert(tags_view(tags@) =~= line_views(pieces@).subrange(0, 0));
    }
    while ti < pieces.len()
        invariant
            0 <= ti <= pieces@.len(),
            tags_view(tags@) == line_views(pieces@).subrange(0, ti as int),
            forall|k: int| 0 <= k < ti ==> has_content(#[trigger] line_views(pieces@)[k]),
            tags_wf(tags@),
        decreases pieces@.len() - ti,
    {
        let ghost t0 = tags_view(tags@);
        let piece = chars_to_string(&pieces[ti]);
        match Tag::new(piece) {
            Ok(t) => {
                tags.push(t);
            },
            Err(e) => {
                proof {
                    assert(line_views(pieces@)[ti as int] == pieces@[ti as int]@);
                    assert(!has_content(line_views(pieces@)[ti as int]));
                }
                return Err(e);
            },
        }
        proof {
            assert(line_views(pieces@)[ti as int] == pieces@[ti as int]@);
            assert(tags_view(tags@) =~= t0.push(pieces@[ti as int]@));
            assert(line_views(pieces@).subrange(0, ti + 1 as int) =~= line_views(
                pieces@,
            ).subrange(0, ti as int).push(line_views(pieces@)[ti as int]));
        }
        ti = ti + 1;
    }
    proof {
        assert(line_views(pieces@).subrange(0, pieces@.len() as int) =~= line_views(pieces@));
    }
    Ok(tags)
}

/// The frontmatter fields as parsed values.
struct FrontFields {
    id: Vec<char>,
    title: Vec<char>,
    entry_type: EntryType,
    source: Vec<char>,
    cmd: Vec<char>,
    os: Vec<char>,
    arch: Vec<char>,
    detected_at: Vec<char>,
    status: EntryStatus,
    tag_pieces: Vec<Vec<char>>,
}

impl View for FrontFields {
    type V = FrontV;

    closed spec fn view(&self) -> FrontV {
        FrontV {
            id: self.id@,
            title: self.title@,
            entry_type: self.entry_type,
            source: self.source@,
            cmd: self.cmd@,
            os: self.os@,
            arch: self.arch@,
            detected_at: self.detected_at@,
            status: self.status,
            tags: line_views(self.tag_pieces@),
        }
    }
}

/// Read the frontmatter block: the header marker, the nine field lines,
/// and the footer marker.
#[verifier::rlimit(100)]
fn read_frontmatter(lines: &Vec<Vec<char>>) -> (r: Result<FrontFields, CoreError>)
    requires
        lines@.len() >= 1,
    ensures
        ({
            let ls = line_views(lines@);
            let fidx = find_line(ls.subrange(1, ls.len() as int), "---"@);
            match r {
                Ok(f) => ls[0] == "---"@ && fidx == 9 && parse_front(ls.subrange(1, 10))
                    == Some(f@),
                Err(e) => if ls[0] != "---"@ {
                    fault_matches(e, DocFault::MissingHeader)
                } else if fidx < 0 {
                    fault_matches(e, DocFault::UnterminatedFrontmatter)
                } else {
                    parse_front(ls.subrange(1, 1 + fidx)) is None && fault_matches(
                        e,
                        DocFault::BadFrontmatter,
                    )
                },
            }
        }),
{
    let ghost ls = line_views(lines@);
    proof {
        assert(ls[0] == lines@[0]@);
    }
    let dashes = str_to_chars("---");
    if !chars_eq(&lines[0], &dashes) {
        return Err(storage_fault("missing frontmatter header"));
    }
    let j = match find_line_from(&lines, 1, &dashes) {
        None => {
            return Err(storage_fault("unterminated frontmatter"));
        },
        Some(j) => j,
    };
    proof {
        assert(ls.subrange(1, ls.len() as int) == line_views(lines@).subrange(
            1,
            lines@.len() as int,
        ));
    }
    if j != 10 {
        proof {
            let fm = ls.subrange(1, 1 + find_line(ls.subrange(1, ls.len() as int), "---"@));
            assert(fm.len() != 9);
        }
        return Err(storage_fault("corrupt frontmatter"));
    }
    let ghost fm = ls.subrange(1, 10);
    proof {
        assert(fm[0] == lines@[1]@);
        assert(fm[1] == lines@[2]@);
        assert(fm[2] == lines@[3]@);
        assert(fm[3] == lines@[4]@);
        assert(fm[4] == lines@[5]@);
        assert(fm[5] == lines@[6]@);
        assert(fm[6] == lines@[7]@);
        assert(fm[7] == lines@[8]@);
        assert(fm[8] == lines@[9]@);
    }
    let id_pre = str_to_chars("id: ");
    if !starts_with_chars(&lines[1], &id_pre) {
        return Err(storage_fault("corrupt frontmatter"));
    }
    let idv = chars_subrange(&lines[1], id_pre.len(), lines[1].len());
    let title_pre = str_to_chars("title: ");
    if !starts_with_chars(&lines[2], &title_pre) {
        return Err(storage_fault("corrupt frontmatter"));
    }
    let titlev = chars_subrange(&lines[2], title_pre.len(), lines[2].len());
    let type_pre = str_to_chars("type: ");
    if !starts_with_chars(&lines[3], &type_pre) {
        return Err(storage_fault("corrupt frontmatter"));
    }
    let typev = chars_subrange(&lines[3], type_pre.len(), lines[3].len());
    let entry_type = if chars_eq(&typev, &str_to_chars("package")) {
        EntryType::Package
    } else if chars_eq(&typev, &str_to_chars("config")) {
        EntryType::Config
    } else if chars_eq(&typev, &str_to_chars("application")) {
        EntryType::Application
    } else if chars_eq(&typev, &str_to_chars("script")) {
        EntryType::Script
    } else if chars_eq(&typev, &str_to_chars("other")) {
        EntryType::Other
    } else {
        return Err(storage_fault("corrupt frontmatter"));
    };
    let source_pre = str_to_chars("source: ");
    if !starts_with_chars(&lines[4], &source_pre) {
        return Err(storage_fault("corrupt frontmatter"));
    }
    let sourcev = chars_subrange(&lines[4], source_pre.len(), lines[4].len());
    let cmd_pre = str_to_chars("cmd: ");
    if !starts_with_chars(&lines[5], &cmd_pre) {
        return Err(storage_fault("corrupt frontmatter"));
    }
    let cmdv = chars_subrange(&lines[5], cmd_pre.len(), lines[5].len());
    let sys_pre = str_to_chars("system: {os: ");
    if !starts_with_chars(&lines[6], &sys_pre) {
        return Err(storage_fault("corrupt frontmatter"));
    }
    let mid = chars_subrange(&lines[6], sys_pre.len(), lines[6].len());
    let arch_sep = str_to_chars(", arch: ");
    proof {
        reveal_strlit(", arch: ");
    }
    let midn = mid.len();
    let f = match crate::text::find_sub(&mid, &arch_sep) {
        None => {
            proof {
                lemma_first_sub_index(mid@, ", arch: "@);
                let fi = first_sub_index(mid@, ", arch: "@);
                if fi >= 0 {
                    assert(crate::text::matches_at(mid@, ", arch: "@, fi));
                    assert(has_sub(mid@, ", arch: "@));
                }
            }
            return Err(storage_fault("corrupt frontmatter"));
        },
        Some(f) => {
            proof {
                lemma_first_sub_index(mid@, ", arch: "@);
                let fi = first_sub_index(mid@, ", arch: "@);
                assert(fi == f as int) by {
                    if fi == -1 {
                        assert(!has_sub(mid@, ", arch: "@));
                        assert(crate::text::matches_at(mid@, ", arch: "@, f as int));
                        assert(false);
                    } else if fi < f as int {
                        assert(!crate::text::matches_at(mid@, ", arch: "@, fi));
                        assert(crate::text::matches_at(mid@, ", arch: "@, fi));
                        assert(false);
                    } else if fi > f as int {
                        assert(!crate::text::matches_at(mid@, ", arch: "@, f as int));
                        assert(crate::text::matches_at(mid@, ", arch: "@, f as int));
                        assert(false);
                    }
                }
            }
            f
        },
    };
    let rest = chars_subrange(&mid, f + arch_sep.len(), midn);
    if rest.len() == 0 {
        return Err(storage_fault("corrupt frontmatter"));
    }
    if rest[rest.len() - 1] != '}' {
        proof {
            assert(rest@.last() != '}');
        }
        return Err(storage_fault("corrupt frontmatter"));
    }
    proof {
        assert(rest@.last() == '}');
    }
    let osv = chars_subrange(&mid, 0, f);
    let archv = chars_subrange(&rest, 0, rest.len() - 1);
    let det_pre = str_to_chars("detected_at: ");
    if !starts_with_chars(&lines[7], &det_pre) {
        return Err(storage_fault("corrupt frontmatter"));
    }
    let detv = chars_subrange(&lines[7], det_pre.len(), lines[7].len());
    let status_pre = str_to_chars("status: ");
    if !starts_with_chars(&lines[8], &status_pre) {
        return Err(storage_fault("corrupt frontmatter"));
    }
    let statusv = chars_subrange(&lines[8], status_pre.len(), lines[8].len());
    let status = if chars_eq(&statusv, &str_to_chars("active")) {
        EntryStatus::Active
    } else if chars_eq(&statusv, &str_to_chars("snoozed")) {
        EntryStatus::Snoozed
    } else if chars_eq(&statusv, &str_to_chars("ignored")) {
        EntryStatus::Ignored
    } else {
        return Err(storage_fault("corrupt frontmatter"));
    };
    let tags_pre = str_to_chars("tags: [");
    if !starts_with_chars(&lines[9], &tags_pre) {
        return Err(storage_fault("corrupt frontmatter"));
    }
    let inner0 = chars_subrange(&lines[9], tags_pre.len(), lines[9].len());
    if inner0.len() == 0 {
        return Err(storage_fault("corrupt frontmatter"));
    }
    if inner0[inner0.len() - 1] != ']' {
        proof {
            assert(inner0@.last() != ']');
        }
        return Err(storage_fault("corrupt frontmatter"));
    }
    proof {
        assert(inner0@.last() == ']');
    }
    let inner = chars_subrange(&inner0, 0, inner0.len() - 1);
    proof {
        reveal_strlit(", ");
    }
    let tag_pieces: Vec<Vec<char>> = if inner.len() == 0 {
        Vec::new()
    } else {
        split_by_sep(&inner, &str_to_chars(", "))
    };
    let ghost front = parse_front(fm);
    proof {
        reveal_strlit("package");
        reveal_strlit("config");
        reveal_strlit("application");
        reveal_strlit("script");
        reveal_strlit("other");
        reveal_strlit("active");
        reveal_strlit("snoozed");
        reveal_strlit("ignored");
        assert(fm.len() == 9);
        assert(field_value(fm[0], "id: "@) == idv@);
        assert(field_value(fm[1], "title: "@) == titlev@);
        assert(field_value(fm[2], "type: "@) == typev@);
        assert(word_type(typev@) == Some(entry_type));
        assert(field_value(fm[3], "source: "@) == sourcev@);
        assert(field_value(fm[4], "cmd: "@) == cmdv@);
        assert(parse_system_line(fm[5]) == Some((osv@, archv@)));
        assert(field_value(fm[6], "detected_at: "@) == detv@);
        assert(word_status(statusv@) == Some(status));
        assert(parse_tags_line(fm[8]) == Some(line_views(tag_pieces@))) by {
            if inner@.len() == 0 {
                assert(line_views(tag_pieces@) =~~= Seq::<Seq<char>>::empty());
            }
        }
        assert(front matches Some(fr) && fr == (FrontV {
            id: idv@,
            title: titlev@,
            entry_type: entry_type,
            source: sourcev@,
            cmd: cmdv@,
            os: osv@,
            arch: archv@,
            detected_at: detv@,
            status: status,
            tags: line_views(tag_pieces@),
        }));
    }
    Ok(
        FrontFields {
            id: idv,
            title: titlev,
            entry_type,
            source: sourcev,
            cmd: cmdv,
            os: osv,
            arch: archv,
            detected_at: detv,
            status,
            tag_pieces,
        },
    )
}

/// The identifier a document's frontmatter names, when the frontmatter
/// parses; the body plays no part.
pub open spec fn spec_front_id(s: Seq<char>) -> Option<Seq<char>> {
    let ls = lines_of(s);
    if ls[0] != "---"@ {
        None
    } else {
        let fidx = find_line(ls.subrange(1, ls.len() as int), "---"@);
        if fidx < 0 {
            None
        } else {
            match parse_front(ls.subrange(1, 1 + fidx)) {
                Some(f) => Some(f.id),
                None => None,
            }
        }
    }
}

/// Read the identifier out of a document's frontmatter, if the
/// frontmatter parses.
pub fn frontmatter_id(s: &str) -> (r: Option<String>)
    ensures
        match r {
            Some(id) => spec_front_id(s@) == Some(id@),
            None => spec_front_id(s@) is None,
        },
{
    let v = str_to_chars(s);
    let lines = split_lines(&v);
    proof {
        assert(line_views(lines@) == lines_of(s@));
    }
    match read_frontmatter(&lines) {
        Ok(f) => {
            let id = chars_to_string(&f.id);
            Some(id)
        },
        Err(_) => None,
    }
}

/// The storage error for a fault in the document's framing.
fn storage_fault(msg: &str) -> (e: CoreError)
    ensures
        e is Storage && e.text() == msg@,
{
    CoreError::Storage(String::from_str(msg))
}

/// Parse a document text back into an entry. The parser accepts exactly
/// what `spec_parse` accepts and surfaces each fault as the matching
/// error.
#[verifier::rlimit(100)]
pub fn parse_entry(s: &str) -> (r: CoreResult<Entry>)
    ensures
        match spec_parse(s@) {
            Ok(v) => r matches Ok(e) && e@ == v && e.wf(),
            Err(f) => r matches Err(e) && fault_matches(e, f),
        },
{
    let v = str_to_chars(s);
    let lines = split_lines(&v);
    let ghost ls = lines_of(s@);
    proof {
        assert(line_views(lines@) == ls);
        assert(ls[0] == lines@[0]@);
    }
    let front_fields = match read_frontmatter(&lines) {
        Ok(f) => f,
        Err(e) => {
            return Err(e);
        },
    };
    let ghost front = parse_front(ls.subrange(1, 10));
    proof {
        assert(front == Some(front_fields@));
    }
    let FrontFields {
        id: idv,
        title: titlev,
        entry_type,
        source: sourcev,
        cmd: cmdv,
        os: osv,
        arch: archv,
        detected_at: detv,
        status,
        tag_pieces,
    } = front_fields;
    proof {
        lemma_find_line(ls.subrange(1, ls.len() as int), "---"@);
        assert(ls.len() >= 11);
    }
    let body = lines_subrange(&lines, 11, lines.len());
    let ghost bodyv = ls.subrange(11, ls.len() as int);
    proof {
        assert(line_views(body@) == bodyv);
    }
    let rat_heading = str_to_chars("# Rationale");
    let rk = match find_line_from(&body, 0, &rat_heading) {
        None => {
            proof {
                assert(line_views(body@).subrange(0, body@.len() as int) =~= bodyv);
            }
            return Err(storage_fault("missing rationale section"));
        },
        Some(rk) => {
            proof {
                assert(line_views(body@).subrange(0, body@.len() as int) =~= bodyv);
            }
            rk
        },
    };
    let after = lines_subrange(&body, rk + 1, body.len());
    let m = find_first_heading(&after);
    let sect = lines_subrange(&after, 0, m);
    let rat_text = section_content(&sect);
    proof {
        assert(line_views(after@) =~= bodyv.subrange(rk + 1, bodyv.len() as int));
        assert(spec_section(bodyv, "# Rationale"@) == Some(section_text(line_views(sect@))));
    }
    let rationale = match Rationale::new(chars_to_string(&rat_text)) {
        Ok(r) => r,
        Err(e) => {
            return Err(e);
        },
    };
    let tags = match make_tags(&tag_pieces) {
        Ok(tags) => tags,
        Err(e) => {
            return Err(e);
        },
    };
    let ver_heading = str_to_chars("# Verification");
    let verification: Option<String> = match find_line_from(&body, 0, &ver_heading) {
        None => {
            proof {
                assert(line_views(body@).subrange(0, body@.len() as int) =~= bodyv);
            }
            None
        },
        Some(vk) => {
            proof {
                assert(line_views(body@).subrange(0, body@.len() as int) =~= bodyv);
            }
            let after2 = lines_subrange(&body, vk + 1, body.len());
            let m2 = find_first_heading(&after2);
            let sect2 = lines_subrange(&after2, 0, m2);
            let ver_text = section_content(&sect2);
            proof {
                assert(line_views(after2@) =~= bodyv.subrange(vk + 1, bodyv.len() as int));
                assert(spec_section(bodyv, "# Verification"@) == Some(section_text(line_views(
                    sect2@,
                ))));
            }
            if ver_text.len() == 0 {
                None
            } else {
                Some(chars_to_string(&ver_text))
            }
        },
    };
    let system = SystemInfo { os: chars_to_string(&osv), arch: chars_to_string(&archv) };
    match Entry::new(
        chars_to_string(&idv),
        chars_to_string(&titlev),
        entry_type,
        chars_to_string(&sourcev),
        chars_to_string(&cmdv),
        system,
        chars_to_string(&detv),
        status,
        tags,
        rationale,
        verification,
    ) {
        Ok(e) => Ok(e),
        Err(e) => Err(e),
    }
}

/// `find_line` returns exactly a known first match.
pub proof fn lemma_find_line_at(ls: Seq<Seq<char>>, target: Seq<char>, k: int)
    requires
        0 <= k < ls.len(),
        ls[k] == target,
        forall|j: int| 0 <= j < k ==> ls[j] != target,
    ensures
        find_line(ls, target) == k,
{
    lemma_find_line(ls, target);
    let f = find_line(ls, target);
    if f == -1 {
        assert(ls[k] != target);
        assert(false);
    } else if f < k {
        assert(ls[f] != target);
        assert(ls[f] == target);
        assert(false);
    } else if f > k {
        assert(ls[k] != target);
        assert(false);
    }
}

/// `first_heading` returns exactly a known first heading position.
pub proof fn lemma_first_heading_at(ls: Seq<Seq<char>>, k: int)
    requires
        0 <= k <= ls.len(),
        forall|j: int| 0 <= j < k ==> !has_prefix(#[trigger] ls[j], "# "@),
        k == ls.len() || has_prefix(ls[k], "# "@),
    ensures
        first_heading(ls) == k,
{
    lemma_first_heading(ls);
    let h = first_heading(ls);
    if h < k {
        assert(!has_prefix(ls[h], "# "@));
        assert(has_prefix(ls[h], "# "@));
        assert(false);
    } else if h > k {
        assert(k < ls.len());
        assert(!has_prefix(ls[k], "# "@));
        assert(false);
    }
}

/// `first_sub_index` returns exactly a known first match.
pub proof fn lemma_first_sub_at(s: Seq<char>, pat: Seq<char>, k: int)
    requires
        pat.len() >= 1,
        crate::text::matches_at(s, pat, k),
        forall|j: int| 0 <= j < k ==> !crate::text::matches_at(s, pat, j),
    ensures
        first_sub_index(s, pat) == k,
{
    lemma_first_sub_index(s, pat);
    let f = first_sub_index(s, pat);
    if f == -1 {
        assert(has_sub(s, pat));
        assert(!has_sub(s, pat));
        assert(false);
    } else if f < k {
        assert(!crate::text::matches_at(s, pat, f));
        assert(crate::text::matches_at(s, pat, f));
        assert(false);
    } else if f > k {
        assert(!crate::text::matches_at(s, pat, k));
        assert(false);
    }
}

/// The fields of an entry's view are valid: required text fields and tags
/// carry visible text.
pub open spec fn entry_wf_view(e: EntryV) -> bool {
    &&& has_content(e.title)
    &&& has_content(e.source)
    &&& has_content(e.cmd)
    &&& has_content(e.rationale)
    &&& forall|i: int| 0 <= i < e.tags.len() ==> has_content(#[trigger] e.tags[i])
}

/// The text can stand as a body section and read back unchanged: it does
/// not start or end with a newline, and no line of it opens a heading.
pub open spec fn section_safe(t: Seq<char>) -> bool {
    &&& lines_of(t)[0].len() > 0
    &&& lines_of(t).last().len() > 0
    &&& forall|i: int| 0 <= i < lines_of(t).len() ==> !has_prefix(#[trigger] lines_of(t)[i], "# "@)
}

/// The entry's text can stand in the document and read back unchanged:
/// frontmatter values hold no newline, the os holds no comma, tags hold no
/// `, `, and the body sections are section-safe.
pub open spec fn doc_safe(e: EntryV) -> bool {
    &&& no_newline(e.id)
    &&& no_newline(e.title)
    &&& no_newline(e.source)
    &&& no_newline(e.cmd)
    &&& no_newline(e.detected_at)
    &&& no_newline(e.system.os)
    &&& no_newline(e.system.arch)
    &&& forall|i: int|
        0 <= i < e.tags.len() ==> no_newline(#[trigger] e.tags[i]) && !has_sub(e.tags[i], ", "@)
    &&& forall|j: int| 0 <= j < e.system.os.len() ==> e.system.os[j] != ','
    &&& section_safe(e.rationale)
    &&& (match e.verification {
        Some(v) => section_safe(v) && v.len() > 0,
        None => true,
    })
}

/// No rendered document line holds a newline.
proof fn lemma_doc_lines_safe(e: EntryV)
    requires
        doc_safe(e),
    ensures
        crate::text::no_newlines(doc_lines(e)),
        doc_lines(e).len() >= 14,
{
    reveal_strlit("---");
    reveal_strlit("id: ");
    reveal_strlit("title: ");
    reveal_strlit("type: ");
    reveal_strlit("source: ");
    reveal_strlit("cmd: ");
    reveal_strlit("system: {os: ");
    reveal_strlit(", arch: ");
    reveal_strlit("}");
    reveal_strlit("detected_at: ");
    reveal_strlit("status: ");
    reveal_strlit("tags: [");
    reveal_strlit("]");
    reveal_strlit("# Rationale");
    reveal_strlit("# Verification");
    reveal_strlit("package");
    reveal_strlit("config");
    reveal_strlit("application");
    reveal_strlit("script");
    reveal_strlit("other");
    reveal_strlit("active");
    reveal_strlit("snoozed");
    reveal_strlit("ignored");
    reveal_strlit(", ");
    let dl = doc_lines(e);
    crate::text::lemma_lines_no_newline(e.rationale);
    lemma_join_no_newline(e.tags);
    if e.verification is Some {
        crate::text::lemma_lines_no_newline(e.verification->0);
    }
    crate::text::lemma_lines_nonempty(e.rationale);
    assert forall|i: int| 0 <= i < dl.len() implies no_newline(#[trigger] dl[i]) by {
        let fml = frontmatter_lines(e);
        let bl = body_lines(e);
        let rll = lines_of(e.rationale);
        if 1 <= i < 10 {
            assert(dl[i] == fml[i - 1]);
        } else if i >= 11 {
            assert(dl[i] == bl[i - 11]);
            let b = i - 11;
            if 2 <= b < 2 + rll.len() {
                assert(bl[b] == rll[b - 2]);
            } else if b >= 4 + rll.len() && e.verification is Some {
                let vll = lines_of(e.verification->0);
                if b < 4 + rll.len() + vll.len() {
                    assert(bl[b] == vll[b - 4 - rll.len()]);
                }
            }
        }
    }
}

/// The join of newline-free tags holds no newline.
pub(crate) proof fn lemma_join_no_newline(tags: Seq<Seq<char>>)
    requires
        forall|i: int| 0 <= i < tags.len() ==> no_newline(#[trigger] tags[i]),
    ensures
        no_newline(join_sep(tags, ", "@)),
    decreases tags.len(),
{
    reveal_strlit(", ");
    if tags.len() > 1 {
        assert(forall|i: int|
            0 <= i < tags.drop_first().len() ==> no_newline(#[trigger] tags.drop_first()[i]))
            by {
            assert(forall|i: int|
                0 <= i < tags.drop_first().len() ==> tags.drop_first()[i] == tags[i + 1]);
        }
        lemma_join_no_newline(tags.drop_first());
    }
}

/// A nonempty list of visible tags joins to visible text.
pub(crate) proof fn lemma_join_nonempty(tags: Seq<Seq<char>>)
    requires
        tags.len() >= 1,
        tags[0].len() >= 1,
    ensures
        join_sep(tags, ", "@).len() >= 1,
{
}

/// Parsing the rendered frontmatter lines recovers the fields.
proof fn lemma_parse_front_of_render(e: EntryV)
    requires
        doc_safe(e),
        forall|i: int| 0 <= i < e.tags.len() ==> (#[trigger] e.tags[i]).len() >= 1,
    ensures
        parse_front(frontmatter_lines(e)) == Some(
            FrontV {
                id: e.id,
                title: e.title,
                entry_type: e.entry_type,
                source: e.source,
                cmd: e.cmd,
                os: e.system.os,
                arch: e.system.arch,
                detected_at: e.detected_at,
                status: e.status,
                tags: e.tags,
            },
        ),
{
    reveal_strlit("package");
    reveal_strlit("config");
    reveal_strlit("application");
    reveal_strlit("script");
    reveal_strlit("other");
    reveal_strlit("active");
    reveal_strlit("snoozed");
    reveal_strlit("ignored");
    reveal_strlit(", arch: ");
    reveal_strlit("}");
    reveal_strlit("]");
    reveal_strlit(", ");
    let fm = frontmatter_lines(e);
    assert(has_prefix(fm[0], "id: "@)) by {
        assert(fm[0].subrange(0, "id: "@.len() as int) =~= "id: "@);
    }
    assert(field_value(fm[0], "id: "@) =~= e.id);
    assert(has_prefix(fm[1], "title: "@)) by {
        assert(fm[1].subrange(0, "title: "@.len() as int) =~= "title: "@);
    }
    assert(field_value(fm[1], "title: "@) =~= e.title);
    assert(has_prefix(fm[2], "type: "@)) by {
        assert(fm[2].subrange(0, "type: "@.len() as int) =~= "type: "@);
    }
    assert(field_value(fm[2], "type: "@) =~= type_word(e.entry_type));
    assert(word_type(type_word(e.entry_type)) == Some(e.entry_type)) by {
        if e.entry_type is Package {
            assert(word_type("package"@) == Some(EntryType::Package));
        } else if e.entry_type is Config {
            assert(word_type("config"@) == Some(EntryType::Config));
        } else if e.entry_type is Application {
            assert(word_type("application"@) == Some(EntryType::Application));
        } else if e.entry_type is Script {
            assert("script"@[0] == 's' && "config"@[0] == 'c');
            assert("script"@ != "config"@);
            assert(word_type("script"@) == Some(EntryType::Script));
        } else {
            assert(word_type("other"@) == Some(EntryType::Other));
        }
    }
    assert(has_prefix(fm[3], "source: "@)) by {
        assert(fm[3].subrange(0, "source: "@.len() as int) =~= "source: "@);
    }
    assert(field_value(fm[3], "source: "@) =~= e.source);
    assert(has_prefix(fm[4], "cmd: "@)) by {
        assert(fm[4].subrange(0, "cmd: "@.len() as int) =~= "cmd: "@);
    }
    assert(field_value(fm[4], "cmd: "@) =~= e.cmd);
    assert(has_prefix(fm[6], "detected_at: "@)) by {
        assert(fm[6].subrange(0, "detected_at: "@.len() as int) =~= "detected_at: "@);
    }
    assert(field_value(fm[6], "detected_at: "@) =~= e.detected_at);
    assert(has_prefix(fm[7], "status: "@)) by {
        assert(fm[7].subrange(0, "status: "@.len() as int) =~= "status: "@);
    }
    assert(field_value(fm[7], "status: "@) =~= status_word(e.status));
    assert(word_status(status_word(e.status)) == Some(e.status)) by {
        if e.status is Active {
            assert(word_status("active"@) == Some(EntryStatus::Active));
        } else if e.status is Snoozed {
            assert(word_status("snoozed"@) == Some(EntryStatus::Snoozed));
        } else {
            assert("ignored"@[0] == 'i' && "snoozed"@[0] == 's');
            assert("ignored"@ != "snoozed"@);
            assert(word_status("ignored"@) == Some(EntryStatus::Ignored));
        }
    }
    // the system line
    let sysl = fm[5];
    assert(has_prefix(sysl, "system: {os: "@)) by {
        assert(sysl.subrange(0, "system: {os: "@.len() as int) =~= "system: {os: "@);
    }
    let mid = field_value(sysl, "system: {os: "@);
    assert(mid =~= e.system.os + ", arch: "@ + e.system.arch + "}"@);
    let n0 = e.system.os.len() as int;
    assert(crate::text::matches_at(mid, ", arch: "@, n0)) by {
        assert(mid.subrange(n0, n0 + ", arch: "@.len()) =~= ", arch: "@);
    }
    assert forall|j: int| 0 <= j < n0 implies !crate::text::matches_at(mid, ", arch: "@, j) by {
        if crate::text::matches_at(mid, ", arch: "@, j) {
            assert(mid.subrange(j, j + ", arch: "@.len())[0] == ", arch: "@[0]);
            assert(mid[j] == ',');
            assert(mid[j] == e.system.os[j]);
            assert(false);
        }
    }
    lemma_first_sub_at(mid, ", arch: "@, n0);
    let rest = mid.subrange(n0 + ", arch: "@.len(), mid.len() as int);
    assert(rest =~= e.system.arch + "}"@);
    assert(rest.len() > 0);
    assert(rest.last() == '}');
    assert(rest.subrange(0, rest.len() - 1) =~= e.system.arch);
    assert(parse_system_line(sysl) == Some((e.system.os, e.system.arch)));
    // the tags line
    let tagl = fm[8];
    assert(has_prefix(tagl, "tags: ["@)) by {
        assert(tagl.subrange(0, "tags: ["@.len() as int) =~= "tags: ["@);
    }
    let inner0 = field_value(tagl, "tags: ["@);
    let joined = join_sep(e.tags, ", "@);
    assert(inner0 =~= joined + "]"@);
    assert(inner0.len() > 0);
    assert(inner0.last() == ']');
    let inner = inner0.subrange(0, inner0.len() - 1);
    assert(inner =~= joined);
    if e.tags.len() == 0 {
        assert(inner.len() == 0);
        assert(parse_tags_line(tagl) == Some(Seq::<Seq<char>>::empty()));
        assert(e.tags =~= Seq::<Seq<char>>::empty());
    } else {
        lemma_join_nonempty(e.tags);
        assert(inner.len() > 0);
        lemma_split_join(e.tags, ", "@);
        assert(parse_tags_line(tagl) == Some(split_list(inner, ", "@)));
        assert(split_list(inner, ", "@) == e.tags);
    }
    assert(fm.len() == 9);
}

/// Reading the rendered body recovers the rationale and verification
/// sections.
proof fn lemma_body_sections(e: EntryV)
    requires
        doc_safe(e),
    ensures
        spec_section(body_lines(e), "# Rationale"@) == Some(e.rationale),
        spec_section(body_lines(e), "# Verification"@) == (match e.verification {
            Some(v) => Some(v),
            None => Some(Seq::<char>::empty()),
        }),
{
    reveal_strlit("# ");
    reveal_strlit("# Rationale");
    reveal_strlit("# Verification");
    let bl = body_lines(e);
    let rll = lines_of(e.rationale);
    crate::text::lemma_lines_nonempty(e.rationale);
    let verpart = match e.verification {
        Some(v) => lines_of(v),
        None => Seq::<Seq<char>>::empty(),
    };
    let rn = rll.len() as int;
    // the rationale section
    assert(bl[0].len() == 0);
    assert(bl[1] == "# Rationale"@);
    lemma_find_line_at(bl, "# Rationale"@, 1);
    let after = bl.subrange(2, bl.len() as int);
    assert(after =~~= rll + seq![Seq::<char>::empty(), "# Verification"@] + verpart + seq![
        Seq::<char>::empty(),
    ]);
    assert forall|j: int| 0 <= j < rn + 1 implies !has_prefix(#[trigger] after[j], "# "@) by {
        if j < rn {
            assert(after[j] == rll[j]);
        } else {
            assert(after[j].len() == 0);
        }
    }
    assert(has_prefix(after[rn + 1], "# "@)) by {
        assert(after[rn + 1] == "# Verification"@);
        assert("# Verification"@.subrange(0, 2) =~= "# "@);
    }
    lemma_first_heading_at(after, rn + 1);
    let sect = after.subrange(0, rn + 1);
    assert(sect =~~= rll + seq![Seq::<char>::empty()]);
    assert(sect[0].len() > 0);
    lemma_drop_lead_empty_is_suffix(sect, 0);
    assert(sect.subrange(0, sect.len() as int) =~= sect);
    assert(sect[rn - 1].len() > 0) by {
        assert(sect[rn - 1] == rll.last());
    }
    lemma_drop_trail_empty_is_prefix(sect, rn);
    assert(sect.subrange(0, rn) =~= rll);
    crate::text::lemma_unlines_lines(e.rationale);
    assert(section_text(sect) == e.rationale);
    // the verification section
    assert(bl[1] != "# Verification"@) by {
        assert("# Rationale"@.len() != "# Verification"@.len());
    }
    assert forall|j: int| 0 <= j < rn + 3 implies bl[j] != "# Verification"@ by {
        if j == 0 || j == rn + 2 {
            assert(bl[j].len() == 0);
            assert("# Verification"@.len() > 0);
        } else if 2 <= j < rn + 2 {
            assert(bl[j] == rll[j - 2]);
            assert(!has_prefix(rll[j - 2], "# "@));
            if bl[j] == "# Verification"@ {
                assert("# Verification"@.subrange(0, 2) =~= "# "@);
                assert(has_prefix(rll[j - 2], "# "@));
                assert(false);
            }
        }
    }
    assert(bl[rn + 3] == "# Verification"@);
    lemma_find_line_at(bl, "# Verification"@, rn + 3);
    let after2 = bl.subrange(rn + 4, bl.len() as int);
    match e.verification {
        Some(v) => {
            let vll = lines_of(v);
            crate::text::lemma_lines_nonempty(v);
            let vn = vll.len() as int;
            assert(after2 =~~= vll + seq![Seq::<char>::empty()]);
            assert forall|j: int| 0 <= j < after2.len() implies !has_prefix(
                #[trigger] after2[j],
                "# "@,
            ) by {
                if j < vn {
                    assert(after2[j] == vll[j]);
                } else {
                    assert(after2[j].len() == 0);
                }
            }
            lemma_first_heading_at(after2, after2.len() as int);
            let sect2 = after2.subrange(0, after2.len() as int);
            assert(sect2 =~~= after2);
            assert(sect2[0].len() > 0);
            lemma_drop_lead_empty_is_suffix(sect2, 0);
            assert(sect2.subrange(0, sect2.len() as int) =~= sect2);
            assert(sect2[vn - 1].len() > 0) by {
                assert(sect2[vn - 1] == vll.last());
            }
            lemma_drop_trail_empty_is_prefix(sect2, vn);
            assert(sect2.subrange(0, vn) =~= vll);
            crate::text::lemma_unlines_lines(v);
            assert(section_text(sect2) == v);
        },
        None => {
            assert(after2 =~~= seq![Seq::<char>::empty()]);
            assert forall|j: int| 0 <= j < after2.len() implies !has_prefix(
                #[trigger] after2[j],
                "# "@,
            ) by {
                assert(after2[j].len() == 0);
            }
            lemma_first_heading_at(after2, after2.len() as int);
            let sect2 = after2.subrange(0, after2.len() as int);
            assert(sect2 =~~= after2);
            lemma_drop_lead_empty_is_suffix(sect2, 1);
            assert(sect2.subrange(1, 1) =~= Seq::<Seq<char>>::empty());
            lemma_drop_trail_empty_is_prefix(Seq::<Seq<char>>::empty(), 0);
            assert(Seq::<Seq<char>>::empty().subrange(0, 0) =~= Seq::<Seq<char>>::empty());
            assert(section_text(sect2) == Seq::<char>::empty());
        },
    }
}

/// Rendering a valid, document-safe entry and parsing the text back yields
/// the very entry: every field reads back unchanged.
pub proof fn lemma_render_parse_round_trip(e: EntryV)
    requires
        entry_wf_view(e),
        doc_safe(e),
    ensures
        spec_parse(spec_render(e)) == Result::<EntryV, DocFault>::Ok(e),
{
    reveal_strlit("---");
    reveal_strlit("id: ");
    reveal_strlit("title: ");
    reveal_strlit("type: ");
    reveal_strlit("source: ");
    reveal_strlit("cmd: ");
    reveal_strlit("system: {os: ");
    reveal_strlit("detected_at: ");
    reveal_strlit("status: ");
    reveal_strlit("tags: [");
    lemma_doc_lines_safe(e);
    let dl = doc_lines(e);
    crate::text::lemma_lines_unlines(dl);
    let s = spec_render(e);
    assert(lines_of(s) == dl);
    assert(dl[0] == "---"@);
    let sub = dl.subrange(1, dl.len() as int);
    let fml = frontmatter_lines(e);
    assert forall|j: int| 0 <= j < 9 implies sub[j] != "---"@ by {
        assert(sub[j] == fml[j]);
        let heads = seq![
            "id: "@,
            "title: "@,
            "type: "@,
            "source: "@,
            "cmd: "@,
            "system: {os: "@,
            "detected_at: "@,
            "status: "@,
            "tags: ["@,
        ];
        assert(fml[j][0] == heads[j][0]);
        assert(fml[j][0] != '-');
        assert("---"@[0] == '-');
    }
    assert(sub[9] == "---"@);
    lemma_find_line_at(sub, "---"@, 9);
    assert(dl.subrange(1, 10) =~= fml);
    assert(forall|i: int| 0 <= i < e.tags.len() ==> (#[trigger] e.tags[i]).len() >= 1) by {
        assert(forall|i: int|
            0 <= i < e.tags.len() ==> has_content(#[trigger] e.tags[i]));
    }
    lemma_parse_front_of_render(e);
    let body = dl.subrange(11, dl.len() as int);
    assert(body =~~= body_lines(e));
    lemma_body_sections(e);
    assert(spec_section(body, "# Rationale"@) == Some(e.rationale));
    assert(has_content(e.rationale));
    match e.verification {
        Some(v) => {
            assert(spec_section(body, "# Verification"@) == Some(v));
            assert(v.len() > 0);
        },
        None => {
            assert(spec_section(body, "# Verification"@) == Some(Seq::<char>::empty()));
        },
    }
    assert(spec_parse(s) == Result::<EntryV, DocFault>::Ok(
        EntryV {
            id: e.id,
            title: e.title,
            entry_type: e.entry_type,
            source: e.source,
            cmd: e.cmd,
            system: crate::domain::SystemInfoV { os: e.system.os, arch: e.system.arch },
            detected_at: e.detected_at,
            status: e.status,
            tags: e.tags,
            rationale: e.rationale,
            verification: e.verification,
        },
    ));
    assert((crate::domain::SystemInfoV { os: e.system.os, arch: e.system.arch }) == e.system);
}

} // verus!
