//! The state-file codec: the inbox, snoozed and snapshot lists are
//! persisted as a whole, one nine-line block per staged change, and read
//! back exactly as written.

use vstd::prelude::*;
use crate::codec::field_value;
use crate::codec::join_sep;
use crate::codec::parse_tags_line;
use crate::codec::parse_system_line;
use crate::codec::split_list;
use crate::codec::type_word;
use crate::codec::word_type;
use crate::domain::CoreError;
use crate::domain::CoreResult;
use crate::domain::DetectedChange;
use crate::domain::DetectedChangeV;
use crate::domain::EntryType;
use crate::domain::SystemInfo;
use crate::domain::Tag;
use crate::domain::tags_view;
use crate::staging::views_of;
use crate::text::chars_to_string;
use crate::text::chars_subrange;
use crate::text::has_content;
use crate::text::has_prefix;
use crate::text::line_views;
use crate::text::lines_of;
use crate::text::no_newline;
use crate::text::split_lines;
use crate::text::str_to_chars;
use crate::text::starts_with_chars;
use crate::text::unlines_of;

verus! {

/// The nine lines one staged change is written as.
pub open spec fn record_lines(c: DetectedChangeV) -> Seq<Seq<char>> {
    seq![
        "- id: "@ + c.id,
        "  path: "@ + (match c.path {
            Some(p) => p,
            None => Seq::<char>::empty(),
        }),
        "  title: "@ + c.title,
        "  type: "@ + type_word(c.entry_type),
        "  source: "@ + c.source,
        "  cmd: "@ + c.cmd,
        "  system: {os: "@ + c.system.os + ", arch: "@ + c.system.arch + "}"@,
        "  detected_at: "@ + c.detected_at,
        "  tags: ["@ + join_sep(c.tags, ", "@) + "]"@,
    ]
}

/// The lines of a whole list, in order.
pub open spec fn state_lines(cs: Seq<DetectedChangeV>) -> Seq<Seq<char>>
    decreases cs.len(),
{
    if cs.len() == 0 {
        Seq::empty()
    } else {
        record_lines(cs[0]) + state_lines(cs.drop_first())
    }
}

/// The rendered state file: every record's lines and a final newline; an
/// empty list renders as empty text.
pub open spec fn spec_render_state(cs: Seq<DetectedChangeV>) -> Seq<char> {
    if cs.len() == 0 {
        Seq::empty()
    } else {
        unlines_of(state_lines(cs) + seq![Seq::<char>::empty()])
    }
}

/// The ways a state file can fail to parse.
#[derive(Clone, Copy, Debug, PartialEq, Eq, Structural)]
pub enum StateFault {
    /// The file is not whole nine-line blocks of the expected shape.
    Malformed,
    /// A recorded tag is empty or whitespace-only.
    EmptyTag,
}

/// The error a state-file fault surfaces as.
pub open spec fn state_fault_matches(e: CoreError, f: StateFault) -> bool {
    match f {
        StateFault::Malformed => e is Storage && e.text() == "corrupt state file"@,
        StateFault::EmptyTag => e is Validation && e.text() == "tag cannot be empty"@,
    }
}

/// One staged change read back from nine lines.
pub open spec fn parse_record(g: Seq<Seq<char>>) -> Result<DetectedChangeV, StateFault> {
    if g.len() != 9 || !has_prefix(g[0], "- id: "@) || !has_prefix(g[1], "  path: "@)
        || !has_prefix(g[2], "  title: "@) || !has_prefix(g[3], "  type: "@) || !has_prefix(
        g[4],
        "  source: "@,
    ) || !has_prefix(g[5], "  cmd: "@) || !has_prefix(g[6], "  "@) || !has_prefix(
        g[7],
        "  detected_at: "@,
    ) || !has_prefix(g[8], "  "@) {
        Err(StateFault::Malformed)
    } else {
        let sysline = field_value(g[6], "  "@);
        let tagline = field_value(g[8], "  "@);
        match (word_type(field_value(g[3], "  type: "@)), parse_system_line(sysline),
        parse_tags_line(tagline)) {
            (Some(ty), Some(sys), Some(tags)) => {
                if exists|i: int| 0 <= i < tags.len() && !has_content(#[trigger] tags[i]) {
                    Err(StateFault::EmptyTag)
                } else {
                    let pathv = field_value(g[1], "  path: "@);
                    Ok(
                        DetectedChangeV {
                            id: field_value(g[0], "- id: "@),
                            path: if pathv.len() == 0 {
                                None
                            } else {
                                Some(pathv)
                            },
                            title: field_value(g[2], "  title: "@),
                            entry_type: ty,
                            source: field_value(g[4], "  source: "@),
                            cmd: field_value(g[5], "  cmd: "@),
                            system: crate::domain::SystemInfoV { os: sys.0, arch: sys.1 },
                            detected_at: field_value(g[7], "  detected_at: "@),
                            tags: tags,
                        },
                    )
                }
            },
            _ => Err(StateFault::Malformed),
        }
    }
}

/// The staged changes read back from whole nine-line blocks.
pub open spec fn parse_records(ls: Seq<Seq<char>>) -> Result<Seq<DetectedChangeV>, StateFault>
    decreases ls.len(),
{
    if ls.len() == 0 {
        Ok(Seq::empty())
    } else if ls.len() < 9 {
        Err(StateFault::Malformed)
    } else {
        match parse_record(ls.subrange(0, 9)) {
            Err(f) => Err(f),
            Ok(c) => match parse_records(ls.subrange(9, ls.len() as int)) {
                Ok(rest) => Ok(seq![c] + rest),
                Err(f) => Err(f),
            },
        }
    }
}

/// What parsing a state file yields: the recorded changes, or the first
/// fault.
pub open spec fn spec_parse_state(s: Seq<char>) -> Result<Seq<DetectedChangeV>, StateFault> {
    if s.len() == 0 {
        Ok(Seq::empty())
    } else {
        let ls = lines_of(s);
        if ls.last().len() != 0 {
            Err(StateFault::Malformed)
        } else {
            parse_records(ls.drop_last())
        }
    }
}

/// Render one staged change's nine lines onto the buffer.
fn push_record_lines(lines: &mut Vec<Vec<char>>, c: &DetectedChange)
    ensures
        line_views(final(lines)@) == line_views(old(lines)@) + record_lines(c@),
{
    let ghost before = line_views(lines@);
    let mut l0 = str_to_chars("- id: ");
    crate::text::append_str(&mut l0, c.id.as_str());
    lines.push(l0);
    let mut l1 = str_to_chars("  path: ");
    match &c.path {
        Some(p) => {
            crate::text::append_str(&mut l1, p.as_str());
        },
        None => {},
    }
    proof {
        assert(l1@ == "  path: "@ + (match c@.path {
            Some(p) => p,
            None => Seq::<char>::empty(),
        })) by {
            if c@.path is None {
                assert("  path: "@ + Seq::<char>::empty() =~= "  path: "@);
            }
        }
    }
    lines.push(l1);
    let mut l2 = str_to_chars("  title: ");
    crate::text::append_str(&mut l2, c.title.as_str());
    lines.push(l2);
    let mut l3 = str_to_chars("  type: ");
    let tw = crate::codec::render_type_word(c.entry_type);
    let tws = chars_to_string(&tw);
    crate::text::append_str(&mut l3, tws.as_str());
    lines.push(l3);
    let mut l4 = str_to_chars("  source: ");
    crate::text::append_str(&mut l4, c.source.as_str());
    lines.push(l4);
    let mut l5 = str_to_chars("  cmd: ");
    crate::text::append_str(&mut l5, c.cmd.as_str());
    lines.push(l5);
    let mut l6 = str_to_chars("  system: {os: ");
    crate::text::append_str(&mut l6, c.system.os.as_str());
    crate::text::append_str(&mut l6, ", arch: ");
    crate::text::append_str(&mut l6, c.system.arch.as_str());
    crate::text::append_str(&mut l6, "}");
    proof {
        assert(l6@ =~= "  system: {os: "@ + c@.system.os + ", arch: "@ + c@.system.arch + "}"@);
    }
    lines.push(l6);
    let mut l7 = str_to_chars("  detected_at: ");
    crate::text::append_str(&mut l7, c.detected_at.as_str());
    lines.push(l7);
    let mut l8 = str_to_chars("  tags: [");
    let inner = crate::codec::join_tags(&c.tags);
    let inner_s = chars_to_string(&inner);
    crate::text::append_str(&mut l8, inner_s.as_str());
    crate::text::append_str(&mut l8, "]");
    proof {
        assert(l8@ =~= "  tags: ["@ + join_sep(tags_view(c.tags@), ", "@) + "]"@);
    }
    lines.push(l8);
    proof {
        assert(line_views(lines@) =~~= before + record_lines(c@));
    }
}

/// Render a whole list of staged changes.
pub fn render_state(changes: &Vec<DetectedChange>) -> (r: String)
    ensures
        r@ == spec_render_state(views_of(changes@)),
{
    if changes.len() == 0 {
        proof {
            assert(views_of(changes@).len() == 0);
        }
        return String::new();
    }
    let ghost cvs = views_of(changes@);
    let mut lines: Vec<Vec<char>> = Vec::new();
    let mut i: usize = 0;
    proof {
        assert(line_views(lines@) =~~= state_lines(cvs.subrange(0, 0)));
    }
    while i < changes.len()
        invariant
            0 <= i <= changes@.len(),
            cvs == views_of(changes@),
            cvs.len() == changes@.len(),
            line_views(lines@) == state_lines(cvs.subrange(0, i as int)),
        decreases changes@.len() - i,
    {
        let ghost pre = cvs.subrange(0, i as int);
        push_record_lines(&mut lines, &changes[i]);
        proof {
            assert(cvs[i as int] == changes@[i as int]@);
            lemma_state_lines_push(pre, cvs[i as int]);
            assert(pre.push(cvs[i as int]) =~= cvs.subrange(0, i + 1 as int));
        }
        i = i + 1;
    }
    proof {
        assert(cvs.subrange(0, cvs.len() as int) =~= cvs);
    }
    lines.push(Vec::new());
    let ghost done = state_lines(cvs);
    proof {
        assert(line_views(lines@) =~~= done + seq![Seq::<char>::empty()]);
        lemma_state_lines_len(cvs);
    }
    let joined = crate::text::join_lines(&lines);
    chars_to_string(&joined)
}

/// Appending one record appends its nine lines.
proof fn lemma_state_lines_push(cs: Seq<DetectedChangeV>, c: DetectedChangeV)
    ensures
        state_lines(cs.push(c)) == state_lines(cs) + record_lines(c),
    decreases cs.len(),
{
    let p = cs.push(c);
    if cs.len() == 0 {
        assert(p.drop_first() =~= Seq::<DetectedChangeV>::empty());
        assert(p[0] == c);
        assert(state_lines(p) == record_lines(c) + state_lines(p.drop_first()));
        assert(state_lines(p.drop_first()) == Seq::<Seq<char>>::empty());
        assert(state_lines(cs) == Seq::<Seq<char>>::empty());
        assert(record_lines(c) + Seq::<Seq<char>>::empty() =~~= Seq::<Seq<char>>::empty()
            + record_lines(c));
        assert(state_lines(p) =~~= state_lines(cs) + record_lines(c));
    } else {
        lemma_state_lines_push(cs.drop_first(), c);
        assert(p.drop_first() =~= cs.drop_first().push(c));
        assert(p[0] == cs[0]);
        assert(state_lines(p) == record_lines(cs[0]) + state_lines(p.drop_first()));
        assert(state_lines(p.drop_first()) == state_lines(cs.drop_first()) + record_lines(c));
        assert(state_lines(cs) == record_lines(cs[0]) + state_lines(cs.drop_first()));
        assert(record_lines(cs[0]) + (state_lines(cs.drop_first()) + record_lines(c))
            =~~= (record_lines(cs[0]) + state_lines(cs.drop_first())) + record_lines(c));
        assert(state_lines(p) =~~= state_lines(cs) + record_lines(c));
    }
}

/// A list's lines number nine per record.
proof fn lemma_state_lines_len(cs: Seq<DetectedChangeV>)
    ensures
        state_lines(cs).len() == 9 * cs.len(),
    decreases cs.len(),
{
    if cs.len() > 0 {
        lemma_state_lines_len(cs.drop_first());
    }
}

/// Parse the nine lines of one record starting at `base`.
#[verifier::rlimit(100)]
fn parse_record_at(lines: &Vec<Vec<char>>, base: usize) -> (r: Result<DetectedChange, CoreError>)
    requires
        base + 9 <= lines@.len(),
    ensures
        ({
            let g = line_views(lines@).subrange(base as int, base + 9);
            match r {
                Ok(c) => parse_record(g) == Result::<DetectedChangeV, StateFault>::Ok(c@),
                Err(e) => parse_record(g) matches Err(f) && state_fault_matches(e, f),
            }
        }),
{
    let nl = lines.len();
    let ghost g = line_views(lines@).subrange(base as int, base + 9);
    proof {
        assert(base + 9 <= nl);
        assert(g[0] == lines@[base as int]@);
        assert(g[1] == lines@[base + 1]@);
        assert(g[2] == lines@[base + 2]@);
        assert(g[3] == lines@[base + 3]@);
        assert(g[4] == lines@[base + 4]@);
        assert(g[5] == lines@[base + 5]@);
        assert(g[6] == lines@[base + 6]@);
        assert(g[7] == lines@[base + 7]@);
        assert(g[8] == lines@[base + 8]@);
    }
    let id_pre = str_to_chars("- id: ");
    if !starts_with_chars(&lines[base], &id_pre) {
        return Err(bad_state());
    }
    let idv = chars_subrange(&lines[base], id_pre.len(), lines[base].len());
    let path_pre = str_to_chars("  path: ");
    if !starts_with_chars(&lines[base + 1], &path_pre) {
        return Err(bad_state());
    }
    let pathv = chars_subrange(&lines[base + 1], path_pre.len(), lines[base + 1].len());
    let title_pre = str_to_chars("  title: ");
    if !starts_with_chars(&lines[base + 2], &title_pre) {
        return Err(bad_state());
    }
    let titlev = chars_subrange(&lines[base + 2], title_pre.len(), lines[base + 2].len());
    let type_pre = str_to_chars("  type: ");
    if !starts_with_chars(&lines[base + 3], &type_pre) {
        return Err(bad_state());
    }
    let typev = chars_subrange(&lines[base + 3], type_pre.len(), lines[base + 3].len());
    proof {
        reveal_strlit("  type: ");
        reveal_strlit("  ");
        assert("  type: "@.subrange(0, 2) =~= "  "@);
        assert(has_prefix(g[3], "  "@)) by {
            assert(g[3].subrange(0, 2) =~= "  "@);
        }
    }
    let entry_type = if crate::text::chars_eq(&typev, &str_to_chars("package")) {
        EntryType::Package
    } else if crate::text::chars_eq(&typev, &str_to_chars("config")) {
        EntryType::Config
    } else if crate::text::chars_eq(&typev, &str_to_chars("application")) {
        EntryType::Application
    } else if crate::text::chars_eq(&typev, &str_to_chars("script")) {
        EntryType::Script
    } else if crate::text::chars_eq(&typev, &str_to_chars("other")) {
        EntryType::Other
    } else {
        return Err(bad_state());
    };
    let source_pre = str_to_chars("  source: ");
    if !starts_with_chars(&lines[base + 4], &source_pre) {
        return Err(bad_state());
    }
    let sourcev = chars_subrange(&lines[base + 4], source_pre.len(), lines[base + 4].len());
    let cmd_pre = str_to_chars("  cmd: ");
    if !starts_with_chars(&lines[base + 5], &cmd_pre) {
        return Err(bad_state());
    }
    let cmdv = chars_subrange(&lines[base + 5], cmd_pre.len(), lines[base + 5].len());
    let two = str_to_chars("  ");
    if !starts_with_chars(&lines[base + 6], &two) {
        return Err(bad_state());
    }
    let sys_line = chars_subrange(&lines[base + 6], two.len(), lines[base + 6].len());
    proof {
        assert(sys_line@ == field_value(g[6], "  "@));
    }
    let sys_pre = str_to_chars("system: {os: ");
    if !starts_with_chars(&sys_line, &sys_pre) {
        return Err(bad_state());
    }
    let mid = chars_subrange(&sys_line, sys_pre.len(), sys_line.len());
    let arch_sep = str_to_chars(", arch: ");
    proof {
        reveal_strlit(", arch: ");
    }
    let midn = mid.len();
    let f = match crate::text::find_sub(&mid, &arch_sep) {
        None => {
            proof {
                crate::text::lemma_first_sub_index(mid@, ", arch: "@);
                let fi = crate::text::first_sub_index(mid@, ", arch: "@);
                if fi >= 0 {
                    assert(crate::text::matches_at(mid@, ", arch: "@, fi));
                    assert(crate::text::has_sub(mid@, ", arch: "@));
                }
            }
            return Err(bad_state());
        },
        Some(f) => {
            proof {
                crate::text::lemma_first_sub_index(mid@, ", arch: "@);
                let fi = crate::text::first_sub_index(mid@, ", arch: "@);
                assert(fi == f as int) by {
                    if fi == -1 {
                        assert(!crate::text::has_sub(mid@, ", arch: "@));
                        assert(crate::text::matches_at(mid@, ", arch: "@, f as int));
                        assert(false);
                    } else if fi < f as int {
                        assert(!crate::text::matches_at(mid@, ", arch: "@, fi));
                        assert(crate::text::matches_at(mid@, ", arch: "@, fi));
                        assert(false);
                    } else if fi > f as int {
                        assert(!crate::text::matches_at(mid@, ", arch: "@, f as int));
                        assert(crate::text::matches_at(mid@, ", arch: "@, f as int));
                        assert(false);
                    }
                }
            }
            f
        },
    };
    let rest = chars_subrange(&mid, f + arch_sep.len(), midn);
    if rest.len() == 0 {
        return Err(bad_state());
    }
    if rest[rest.len() - 1] != '}' {
        proof {
            assert(rest@.last() != '}');
        }
        return Err(bad_state());
    }
    proof {
        assert(rest@.last() == '}');
    }
    let osv = chars_subrange(&mid, 0, f);
    let archv = chars_subrange(&rest, 0, rest.len() - 1);
    let det_pre = str_to_chars("  detected_at: ");
    if !starts_with_chars(&lines[base + 7], &det_pre) {
        return Err(bad_state());
    }
    let detv = chars_subrange(&lines[base + 7], det_pre.len(), lines[base + 7].len());
    if !starts_with_chars(&lines[base + 8], &two) {
        return Err(bad_state());
    }
    let tag_line = chars_subrange(&lines[base + 8], two.len(), lines[base + 8].len());
    proof {
        assert(tag_line@ == field_value(g[8], "  "@));
    }
    let tags_pre = str_to_chars("tags: [");
    if !starts_with_chars(&tag_line, &tags_pre) {
        return Err(bad_state());
    }
    let inner0 = chars_subrange(&tag_line, tags_pre.len(), tag_line.len());
    if inner0.len() == 0 {
        return Err(bad_state());
    }
    if inner0[inner0.len() - 1] != ']' {
        proof {
            assert(inner0@.last() != ']');
        }
        return Err(bad_state());
    }
    proof {
        assert(inner0@.last() == ']');
    }
    let inner = chars_subrange(&inner0, 0, inner0.len() - 1);
    proof {
        reveal_strlit(", ");
    }
    let tag_pieces: Vec<Vec<char>> = if inner.len() == 0 {
        Vec::new()
    } else {
        crate::codec::split_by_sep(&inner, &str_to_chars(", "))
    };
    proof {
        assert(parse_tags_line(field_value(g[8], "  "@)) == Some(line_views(tag_pieces@))) by {
            if inner@.len() == 0 {
                assert(line_views(tag_pieces@) =~~= Seq::<Seq<char>>::empty());
            }
        }
    }
    let tags = match crate::codec::make_tags(&tag_pieces) {
        Ok(tags) => tags,
        Err(e) => {
            return Err(e);
        },
    };
    let path = if pathv.len() == 0 {
        None
    } else {
        Some(chars_to_string(&pathv))
    };
    let c = DetectedChange {
        id: chars_to_string(&idv),
        path,
        title: chars_to_string(&titlev),
        entry_type,
        source: chars_to_string(&sourcev),
        cmd: chars_to_string(&cmdv),
        system: SystemInfo { os: chars_to_string(&osv), arch: chars_to_string(&archv) },
        detected_at: chars_to_string(&detv),
        tags,
    };
    proof {
        reveal_strlit("package");
        reveal_strlit("config");
        reveal_strlit("application");
        reveal_strlit("script");
        reveal_strlit("other");
        assert(word_type(field_value(g[3], "  type: "@)) == Some(entry_type));
        assert(parse_system_line(field_value(g[6], "  "@)) == Some((osv@, archv@)));
        assert(tags_view(c.tags@) == line_views(tag_pieces@));
        assert(parse_record(g) == Result::<DetectedChangeV, StateFault>::Ok(c@));
    }
    Ok(c)
}

/// The storage error for a malformed state file.
fn bad_state() -> (e: CoreError)
    ensures
        e is Storage && e.text() == "corrupt state file"@,
{
    CoreError::Storage(String::from_str("corrupt state file"))
}

/// Parse a state file back into its staged changes. The parser accepts
/// exactly what `spec_parse_state` accepts.
pub fn parse_state(s: &str) -> (r: CoreResult<Vec<DetectedChange>>)
    ensures
        match spec_parse_state(s@) {
            Ok(cs) => r matches Ok(v) && views_of(v@) == cs,
            Err(f) => r matches Err(e) && state_fault_matches(e, f),
        },
{
    if s.is_empty() {
        let r: Vec<DetectedChange> = Vec::new();
        proof {
            assert(views_of(r@) =~= Seq::<DetectedChangeV>::empty());
        }
        return Ok(r);
    }
    let v = str_to_chars(s);
    let lines = split_lines(&v);
    let ghost ls = lines_of(s@);
    proof {
        assert(line_views(lines@) == ls);
        assert(ls.last() == lines@[lines@.len() - 1]@);
    }
    let n = lines.len();
    if lines[n - 1].len() != 0 {
        return Err(bad_state());
    }
    let ghost body = ls.drop_last();
    proof {
        assert(body =~= line_views(lines@).subrange(0, n - 1));
    }
    let m = n - 1;
    let mut out: Vec<DetectedChange> = Vec::new();
    let mut base: usize = 0;
    proof {
        assert(body.subrange(0, body.len() as int) =~= body);
        assert(views_of(out@) + Seq::<DetectedChangeV>::empty() =~= views_of(out@));
    }
    while base < m
        invariant
            0 <= base <= m,
            m == lines@.len() - 1,
            m == body.len(),
            body == line_views(lines@).subrange(0, m as int),
            s@.len() != 0,
            ls == lines_of(s@),
            ls == line_views(lines@),
            ls.len() >= 1,
            ls.last().len() == 0,
            body == ls.drop_last(),
            match parse_records(body.subrange(base as int, body.len() as int)) {
                Ok(tail) => parse_records(body) == Result::<Seq<DetectedChangeV>, StateFault>::Ok(
                    views_of(out@) + tail,
                ),
                Err(f) => parse_records(body) matches Err(f2) && f2 == f,
            },
        decreases m - base,
    {
        let ghost rest = body.subrange(base as int, body.len() as int);
        let ghost out0 = views_of(out@);
        if m - base < 9 {
            proof {
                assert(parse_records(rest) == Result::<Seq<DetectedChangeV>, StateFault>::Err(
                    StateFault::Malformed,
                ));
            }
            return Err(bad_state());
        }
        proof {
            assert(rest.subrange(0, 9) =~= line_views(lines@).subrange(base as int, base + 9));
            assert(rest.subrange(9, rest.len() as int) =~= body.subrange(
                base + 9,
                body.len() as int,
            ));
        }
        match parse_record_at(&lines, base) {
            Ok(c) => {
                out.push(c);
                proof {
                    assert(views_of(out@) =~= out0.push(parse_record(rest.subrange(0, 9))->Ok_0));
                    if parse_records(rest.subrange(9, rest.len() as int)) is Ok {
                        assert(out0 + (seq![parse_record(rest.subrange(0, 9))->Ok_0]
                            + parse_records(rest.subrange(9, rest.len() as int))->Ok_0)
                            =~= views_of(out@) + parse_records(
                            rest.subrange(9, rest.len() as int),
                        )->Ok_0);
                    }
                }
            },
            Err(e) => {
                return Err(e);
            },
        }
        base = base + 9;
    }
    proof {
        assert(body.subrange(m as int, body.len() as int) =~= Seq::<Seq<char>>::empty());
        assert(views_of(out@) + Seq::<DetectedChangeV>::empty() =~= views_of(out@));
    }
    Ok(out)
}

/// The record's text can stand in a state file and read back unchanged:
/// field values hold no newline, the os holds no comma, tags hold visible
/// text and no `, `, and a recorded path is nonempty.
pub open spec fn state_safe(c: DetectedChangeV) -> bool {
    &&& no_newline(c.id)
    &&& no_newline(c.title)
    &&& no_newline(c.source)
    &&& no_newline(c.cmd)
    &&& no_newline(c.detected_at)
    &&& no_newline(c.system.os)
    &&& no_newline(c.system.arch)
    &&& forall|j: int| 0 <= j < c.system.os.len() ==> c.system.os[j] != ','
    &&& forall|i: int|
        0 <= i < c.tags.len() ==> no_newline(#[trigger] c.tags[i]) && !crate::text::has_sub(
            c.tags[i],
            ", "@,
        ) && has_content(c.tags[i])
    &&& match c.path {
        Some(p) => no_newline(p) && p.len() > 0,
        None => true,
    }
}

/// Parsing the rendered nine lines of a record recovers the record.
proof fn lemma_record_round_trip(c: DetectedChangeV)
    requires
        state_safe(c),
    ensures
        parse_record(record_lines(c)) == Result::<DetectedChangeV, StateFault>::Ok(c),
{
    reveal_strlit("- id: ");
    reveal_strlit("  path: ");
    reveal_strlit("  title: ");
    reveal_strlit("  type: ");
    reveal_strlit("  source: ");
    reveal_strlit("  cmd: ");
    reveal_strlit("  system: {os: ");
    reveal_strlit("system: {os: ");
    reveal_strlit(", arch: ");
    reveal_strlit("}");
    reveal_strlit("  detected_at: ");
    reveal_strlit("  tags: [");
    reveal_strlit("tags: [");
    reveal_strlit("]");
    reveal_strlit(", ");
    reveal_strlit("  ");
    reveal_strlit("package");
    reveal_strlit("config");
    reveal_strlit("application");
    reveal_strlit("script");
    reveal_strlit("other");
    let g = record_lines(c);
    assert(has_prefix(g[0], "- id: "@)) by {
        assert(g[0].subrange(0, "- id: "@.len() as int) =~= "- id: "@);
    }
    assert(field_value(g[0], "- id: "@) =~= c.id);
    assert(has_prefix(g[1], "  path: "@)) by {
        assert(g[1].subrange(0, "  path: "@.len() as int) =~= "  path: "@);
    }
    let pathv = field_value(g[1], "  path: "@);
    match c.path {
        Some(p) => {
            assert(pathv =~= p);
            assert(pathv.len() > 0);
        },
        None => {
            assert(pathv =~= Seq::<char>::empty());
        },
    }
    assert(has_prefix(g[2], "  title: "@)) by {
        assert(g[2].subrange(0, "  title: "@.len() as int) =~= "  title: "@);
    }
    assert(field_value(g[2], "  title: "@) =~= c.title);
    assert(has_prefix(g[3], "  type: "@)) by {
        assert(g[3].subrange(0, "  type: "@.len() as int) =~= "  type: "@);
    }
    assert(field_value(g[3], "  type: "@) =~= type_word(c.entry_type));
    assert(word_type(type_word(c.entry_type)) == Some(c.entry_type)) by {
        if c.entry_type is Package {
            assert(word_type("package"@) == Some(EntryType::Package));
        } else if c.entry_type is Config {
            assert(word_type("config"@) == Some(EntryType::Config));
        } else if c.entry_type is Application {
            assert(word_type("application"@) == Some(EntryType::Application));
        } else if c.entry_type is Script {
            assert("script"@[0] == 's' && "config"@[0] == 'c');
            assert("script"@ != "config"@);
            assert(word_type("script"@) == Some(EntryType::Script));
        } else {
            assert(word_type("other"@) == Some(EntryType::Other));
        }
    }
    assert(has_prefix(g[4], "  source: "@)) by {
        assert(g[4].subrange(0, "  source: "@.len() as int) =~= "  source: "@);
    }
    assert(field_value(g[4], "  source: "@) =~= c.source);
    assert(has_prefix(g[5], "  cmd: "@)) by {
        assert(g[5].subrange(0, "  cmd: "@.len() as int) =~= "  cmd: "@);
    }
    assert(field_value(g[5], "  cmd: "@) =~= c.cmd);
    assert(has_prefix(g[6], "  "@)) by {
        assert(g[6].subrange(0, 2) =~= "  "@);
    }
    let sysline = field_value(g[6], "  "@);
    assert(sysline =~= "system: {os: "@ + c.system.os + ", arch: "@ + c.system.arch + "}"@);
    assert(has_prefix(sysline, "system: {os: "@)) by {
        assert(sysline.subrange(0, "system: {os: "@.len() as int) =~= "system: {os: "@);
    }
    let mid = field_value(sysline, "system: {os: "@);
    assert(mid =~= c.system.os + ", arch: "@ + c.system.arch + "}"@);
    let n0 = c.system.os.len() as int;
    assert(crate::text::matches_at(mid, ", arch: "@, n0)) by {
        assert(mid.subrange(n0, n0 + ", arch: "@.len()) =~= ", arch: "@);
    }
    assert forall|j: int| 0 <= j < n0 implies !crate::text::matches_at(mid, ", arch: "@, j) by {
        if crate::text::matches_at(mid, ", arch: "@, j) {
            assert(mid.subrange(j, j + ", arch: "@.len())[0] == ", arch: "@[0]);
            assert(mid[j] == ',');
            assert(mid[j] == c.system.os[j]);
            assert(false);
        }
    }
    crate::codec::lemma_first_sub_at(mid, ", arch: "@, n0);
    let rest = mid.subrange(n0 + ", arch: "@.len(), mid.len() as int);
    assert(rest =~= c.system.arch + "}"@);
    assert(rest.len() > 0);
    assert(rest.last() == '}');
    assert(rest.subrange(0, rest.len() - 1) =~= c.system.arch);
    assert(parse_system_line(sysline) == Some((c.system.os, c.system.arch)));
    assert(has_prefix(g[7], "  detected_at: "@)) by {
        assert(g[7].subrange(0, "  detected_at: "@.len() as int) =~= "  detected_at: "@);
    }
    assert(field_value(g[7], "  detected_at: "@) =~= c.detected_at);
    assert(has_prefix(g[8], "  "@)) by {
        assert(g[8].subrange(0, 2) =~= "  "@);
    }
    let tagline = field_value(g[8], "  "@);
    assert(tagline =~= "tags: ["@ + join_sep(c.tags, ", "@) + "]"@);
    assert(has_prefix(tagline, "tags: ["@)) by {
        assert(tagline.subrange(0, "tags: ["@.len() as int) =~= "tags: ["@);
    }
    let inner0 = field_value(tagline, "tags: ["@);
    let joined = join_sep(c.tags, ", "@);
    assert(inner0 =~= joined + "]"@);
    assert(inner0.len() > 0);
    assert(inner0.last() == ']');
    let inner = inner0.subrange(0, inner0.len() - 1);
    assert(inner =~= joined);
    if c.tags.len() == 0 {
        assert(inner.len() == 0);
        assert(parse_tags_line(tagline) == Some(Seq::<Seq<char>>::empty()));
        assert(c.tags =~= Seq::<Seq<char>>::empty());
    } else {
        assert(c.tags[0].len() >= 1) by {
            assert(has_content(c.tags[0]));
        }
        crate::codec::lemma_join_nonempty(c.tags);
        assert(inner.len() > 0);
        crate::codec::lemma_split_join(c.tags, ", "@);
        assert(parse_tags_line(tagline) == Some(split_list(inner, ", "@)));
        assert(split_list(inner, ", "@) == c.tags);
    }
    assert(g.len() == 9);
    assert((crate::domain::SystemInfoV { os: c.system.os, arch: c.system.arch }) == c.system);
}

/// No line of a safe record holds a newline.
proof fn lemma_record_lines_safe(c: DetectedChangeV)
    requires
        state_safe(c),
    ensures
        crate::text::no_newlines(record_lines(c)),
{
    reveal_strlit("- id: ");
    reveal_strlit("  path: ");
    reveal_strlit("  title: ");
    reveal_strlit("  type: ");
    reveal_strlit("  source: ");
    reveal_strlit("  cmd: ");
    reveal_strlit("  system: {os: ");
    reveal_strlit(", arch: ");
    reveal_strlit("}");
    reveal_strlit("  detected_at: ");
    reveal_strlit("  tags: [");
    reveal_strlit("]");
    reveal_strlit("package");
    reveal_strlit("config");
    reveal_strlit("application");
    reveal_strlit("script");
    reveal_strlit("other");
    crate::codec::lemma_join_no_newline(c.tags);
    let g = record_lines(c);
    assert forall|i: int| 0 <= i < g.len() implies no_newline(#[trigger] g[i]) by {
        if i == 3 {
            if c.entry_type is Package {
            } else if c.entry_type is Config {
            } else if c.entry_type is Application {
            } else if c.entry_type is Script {
            } else {
            }
        }
    }
}

/// Every line of a safe list is free of newlines.
proof fn lemma_state_lines_safe(cs: Seq<DetectedChangeV>)
    requires
        forall|i: int| 0 <= i < cs.len() ==> state_safe(#[trigger] cs[i]),
    ensures
        crate::text::no_newlines(state_lines(cs)),
    decreases cs.len(),
{
    if cs.len() > 0 {
        lemma_record_lines_safe(cs[0]);
        assert(forall|i: int|
            0 <= i < cs.drop_first().len() ==> state_safe(#[trigger] cs.drop_first()[i])) by {
            assert(forall|i: int|
                0 <= i < cs.drop_first().len() ==> cs.drop_first()[i] == cs[i + 1]);
        }
        lemma_state_lines_safe(cs.drop_first());
        let sl = state_lines(cs);
        assert forall|i: int| 0 <= i < sl.len() implies no_newline(#[trigger] sl[i]) by {
            if i < 9 {
                assert(sl[i] == record_lines(cs[0])[i]);
            } else {
                assert(sl[i] == state_lines(cs.drop_first())[i - 9]);
            }
        }
    }
}

/// Parsing the rendered lines of a list recovers the list.
proof fn lemma_parse_records_of_render(cs: Seq<DetectedChangeV>)
    requires
        forall|i: int| 0 <= i < cs.len() ==> state_safe(#[trigger] cs[i]),
    ensures
        parse_records(state_lines(cs)) == Result::<Seq<DetectedChangeV>, StateFault>::Ok(cs),
    decreases cs.len(),
{
    if cs.len() == 0 {
        assert(parse_records(state_lines(cs)) == Result::<Seq<DetectedChangeV>, StateFault>::Ok(
            Seq::empty(),
        ));
        assert(cs =~= Seq::<DetectedChangeV>::empty());
    } else {
        let sl = state_lines(cs);
        lemma_state_lines_len(cs);
        lemma_state_lines_len(cs.drop_first());
        assert(sl.len() >= 9);
        assert(sl.subrange(0, 9) =~= record_lines(cs[0]));
        lemma_record_round_trip(cs[0]);
        assert(sl.subrange(9, sl.len() as int) =~= state_lines(cs.drop_first()));
        assert(forall|i: int|
            0 <= i < cs.drop_first().len() ==> state_safe(#[trigger] cs.drop_first()[i])) by {
            assert(forall|i: int|
                0 <= i < cs.drop_first().len() ==> cs.drop_first()[i] == cs[i + 1]);
        }
        lemma_parse_records_of_render(cs.drop_first());
        assert(seq![cs[0]] + cs.drop_first() =~= cs);
    }
}

/// Rendering a list of safe records and parsing the text back yields the
/// very list.
pub proof fn lemma_state_round_trip(cs: Seq<DetectedChangeV>)
    requires
        forall|i: int| 0 <= i < cs.len() ==> state_safe(#[trigger] cs[i]),
    ensures
        spec_parse_state(spec_render_state(cs)) == Result::<Seq<DetectedChangeV>, StateFault>::Ok(
            cs,
        ),
{
    if cs.len() == 0 {
        assert(spec_render_state(cs).len() == 0);
        assert(cs =~= Seq::<DetectedChangeV>::empty());
    } else {
        let all = state_lines(cs) + seq![Seq::<char>::empty()];
        lemma_state_lines_safe(cs);
        assert(crate::text::no_newlines(all)) by {
            assert forall|i: int| 0 <= i < all.len() implies no_newline(#[trigger] all[i]) by {
                if i < state_lines(cs).len() {
                    assert(all[i] == state_lines(cs)[i]);
                } else {
                    assert(all[i].len() == 0);
                }
            }
        }
        lemma_state_lines_len(cs);
        crate::text::lemma_lines_unlines(all);
        let s = spec_render_state(cs);
        assert(lines_of(s) == all);
        assert(s.len() != 0) by {
            if s.len() == 0 {
                assert(lines_of(s).len() == 1);
                assert(all.len() >= 10);
            }
        }
        assert(all.last().len() == 0);
        assert(all.drop_last() =~= state_lines(cs));
        lemma_parse_records_of_render(cs);
    }
}

} // verus!
