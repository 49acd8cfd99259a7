//! Character and string utilities shared by the parsers and codecs.
//!
//! Exec code works on `Vec<char>` buffers whose views are `Seq<char>`;
//! the helpers here convert between `String` and `Vec<char>` and provide
//! verified searching, splitting and trimming.

use vstd::prelude::*;

verus! {

/// What `char::is_whitespace` returns for a character beyond ASCII; a fixed
/// function of the character, left uninterpreted.
pub uninterp spec fn is_space_beyond_ascii(c: char) -> bool;

/// Whether the character has the Unicode `White_Space` property. For ASCII
/// the property holds exactly of tab, line feed, vertical tab, form feed,
/// carriage return and space.
pub open spec fn is_space(c: char) -> bool {
    if (c as u32) < 128 {
        c == ' ' || c == '\t' || c == '\n' || c == '\r' || c == '\u{0b}' || c == '\u{0c}'
    } else {
        is_space_beyond_ascii(c)
    }
}

/// Relies on `char::is_whitespace`: whether the character has the Unicode
/// `White_Space` property, a function of the character alone; on ASCII these
/// are exactly the six characters `is_space` lists.
pub assume_specification[ char::is_whitespace ](c: char) -> (r: bool)
    ensures
        r == is_space(c),
        (c as u32) >= 128 ==> r == is_space_beyond_ascii(c),
;

/// Relies on `String::push`: appends exactly the given character.
pub assume_specification[ String::push ](s: &mut String, c: char)
    ensures
        final(s)@ == old(s)@.push(c),
;

/// The text has at least one non-whitespace character.
pub open spec fn has_content(s: Seq<char>) -> bool {
    exists|i: int| 0 <= i < s.len() && !is_space(s[i])
}

/// Decide whether the text has a non-whitespace character.
pub fn has_visible_char(s: &str) -> (r: bool)
    ensures
        r == has_content(s@),
{
    let n = s.unicode_len();
    let mut i: usize = 0;
    while i < n
        invariant
            0 <= i <= n,
            n == s@.len(),
            forall|j: int| 0 <= j < i ==> is_space(s@[j]),
        decreases n - i,
    {
        let c = s.get_char(i);
        if !c.is_whitespace() {
            return true;
        }
        i = i + 1;
    }
    false
}

/// Copy the characters of a string slice into a vector.
pub fn str_to_chars(s: &str) -> (r: Vec<char>)
    ensures
        r@ == s@,
{
    let n = s.unicode_len();
    let mut r: Vec<char> = Vec::new();
    let mut i: usize = 0;
    while i < n
        invariant
            0 <= i <= n,
            n == s@.len(),
            r@ == s@.subrange(0, i as int),
        decreases n - i,
    {
        r.push(s.get_char(i));
        proof {
            assert(r@ =~= s@.subrange(0, i + 1 as int));
        }
        i = i + 1;
    }
    proof {
        assert(r@ =~= s@);
    }
    r
}

/// The text after dropping leading whitespace characters.
pub open spec fn drop_leading(s: Seq<char>) -> Seq<char>
    decreases s.len(),
{
    if s.len() > 0 && is_space(s[0]) {
        drop_leading(s.drop_first())
    } else {
        s
    }
}

/// The text after dropping trailing whitespace characters.
pub open spec fn drop_trailing(s: Seq<char>) -> Seq<char>
    decreases s.len(),
{
    if s.len() > 0 && is_space(s.last()) {
        drop_trailing(s.drop_last())
    } else {
        s
    }
}

/// The text with whitespace removed from both ends.
pub open spec fn trim_of(s: Seq<char>) -> Seq<char> {
    drop_trailing(drop_leading(s))
}

/// `drop_leading` keeps exactly the suffix from the first visible character.
pub proof fn lemma_drop_leading_is_suffix(s: Seq<char>, a: int)
    requires
        0 <= a <= s.len(),
        forall|j: int| 0 <= j < a ==> is_space(s[j]),
        a == s.len() || !is_space(s[a]),
    ensures
        drop_leading(s) == s.subrange(a, s.len() as int),
    decreases a,
{
    if a == 0 {
        assert(s.subrange(0, s.len() as int) =~= s);
    } else {
        assert(is_space(s[0]));
        lemma_drop_leading_is_suffix(s.drop_first(), a - 1);
        assert(s.drop_first().subrange(a - 1, s.drop_first().len() as int) =~= s.subrange(
            a,
            s.len() as int,
        ));
    }
}

/// `drop_trailing` keeps exactly the prefix up to the last visible character.
pub proof fn lemma_drop_trailing_is_prefix(s: Seq<char>, b: int)
    requires
        0 <= b <= s.len(),
        forall|j: int| b <= j < s.len() ==> is_space(s[j]),
        b == 0 || !is_space(s[b - 1]),
    ensures
        drop_trailing(s) == s.subrange(0, b),
    decreases s.len() - b,
{
    if b == s.len() {
        if s.len() > 0 && is_space(s.last()) {
            assert(!is_space(s[b - 1]));
            assert(false);
        }
        assert(s.subrange(0, s.len() as int) =~= s);
    } else {
        assert(is_space(s.last()));
        lemma_drop_trailing_is_prefix(s.drop_last(), b);
        assert(s.drop_last().subrange(0, b) =~= s.subrange(0, b));
    }
}

/// Copy the elements in `[from, to)` out of the vector.
pub fn chars_subrange(v: &Vec<char>, from: usize, to: usize) -> (r: Vec<char>)
    requires
        from <= to <= v@.len(),
    ensures
        r@ == v@.subrange(from as int, to as int),
{
    let mut r: Vec<char> = Vec::new();
    let mut i: usize = from;
    while i < to
        invariant
            from <= i <= to <= v@.len(),
            r@ == v@.subrange(from as int, i as int),
        decreases to - i,
    {
        r.push(v[i]);
        proof {
            assert(r@ =~= v@.subrange(from as int, i + 1 as int));
        }
        i = i + 1;
    }
    r
}

/// Remove whitespace from both ends of the character buffer.
pub fn trim_chars(v: &Vec<char>) -> (r: Vec<char>)
    ensures
        r@ == trim_of(v@),
{
    let n = v.len();
    let mut a: usize = 0;
    while a < n && v[a].is_whitespace()
        invariant
            0 <= a <= n,
            n == v@.len(),
            forall|j: int| 0 <= j < a ==> is_space(v@[j]),
        decreases n - a,
    {
        a = a + 1;
    }
    if a == n {
        proof {
            lemma_drop_leading_is_suffix(v@, n as int);
            assert(v@.subrange(n as int, n as int) =~= Seq::<char>::empty());
            lemma_drop_trailing_is_prefix(Seq::<char>::empty(), 0);
            assert(Seq::<char>::empty().subrange(0, 0) =~= Seq::<char>::empty());
        }
        return Vec::new();
    }
    let mut b: usize = n;
    while b > a + 1 && v[b - 1].is_whitespace()
        invariant
            a + 1 <= b <= n,
            n == v@.len(),
            forall|j: int| b <= j < n ==> is_space(v@[j]),
        decreases b,
    {
        b = b - 1;
    }
    let r = chars_subrange(v, a, b);
    proof {
        lemma_drop_leading_is_suffix(v@, a as int);
        let tail = v@.subrange(a as int, n as int);
        assert(!is_space(v@[a as int]));
        assert(b == a + 1 || !is_space(v@[b - 1]));
        assert(!is_space(tail[(b - a - 1) as int]));
        lemma_drop_trailing_is_prefix(tail, (b - a) as int);
        assert(tail.subrange(0, (b - a) as int) =~= v@.subrange(a as int, b as int));
    }
    r
}

/// `p` is a prefix of `s`.
pub open spec fn has_prefix(s: Seq<char>, p: Seq<char>) -> bool {
    p.len() <= s.len() && s.subrange(0, p.len() as int) == p
}

/// Decide whether `p` is a prefix of `v`.
pub fn starts_with_chars(v: &Vec<char>, p: &Vec<char>) -> (r: bool)
    ensures
        r == has_prefix(v@, p@),
{
    if p.len() > v.len() {
        return false;
    }
    let mut i: usize = 0;
    while i < p.len()
        invariant
            0 <= i <= p@.len() <= v@.len(),
            forall|j: int| 0 <= j < i ==> v@[j] == p@[j],
        decreases p@.len() - i,
    {
        if v[i] != p[i] {
            proof {
                assert(v@.subrange(0, p@.len() as int)[i as int] != p@[i as int]);
            }
            return false;
        }
        i = i + 1;
    }
    proof {
        assert(v@.subrange(0, p@.len() as int) =~= p@);
    }
    true
}

/// The pattern occurs in `s` starting at position `i`.
pub open spec fn matches_at(s: Seq<char>, pat: Seq<char>, i: int) -> bool {
    0 <= i && i + pat.len() <= s.len() && s.subrange(i, i + pat.len()) == pat
}

/// The pattern occurs somewhere in `s`.
pub open spec fn has_sub(s: Seq<char>, pat: Seq<char>) -> bool {
    exists|i: int| matches_at(s, pat, i)
}

/// Check for a match of `pat` at position `i`.
fn check_match(v: &Vec<char>, pat: &Vec<char>, i: usize) -> (r: bool)
    requires
        i + pat@.len() <= v@.len(),
    ensures
        r == matches_at(v@, pat@, i as int),
{
    let n = v.len();
    let mut k: usize = 0;
    while k < pat.len()
        invariant
            0 <= k <= pat@.len(),
            i + pat@.len() <= v@.len(),
            n == v@.len(),
            forall|j: int| 0 <= j < k ==> v@[i + j] == pat@[j],
        decreases pat@.len() - k,
    {
        if v[i + k] != pat[k] {
            proof {
                assert(v@.subrange(i as int, i + pat@.len())[k as int] != pat@[k as int]);
            }
            return false;
        }
        k = k + 1;
    }
    proof {
        assert(v@.subrange(i as int, i + pat@.len()) =~= pat@);
    }
    true
}

/// Find the first occurrence of `pat` in `v`, if any.
pub fn find_sub(v: &Vec<char>, pat: &Vec<char>) -> (r: Option<usize>)
    requires
        pat@.len() >= 1,
    ensures
        match r {
            Some(i) => matches_at(v@, pat@, i as int) && forall|j: int|
                0 <= j < i ==> !matches_at(v@, pat@, j),
            None => !has_sub(v@, pat@),
        },
{
    if pat.len() > v.len() {
        return None;
    }
    let n = v.len();
    let last = n - pat.len();
    let mut i: usize = 0;
    while i <= last
        invariant
            0 <= i <= last + 1,
            last == v@.len() - pat@.len(),
            n == v@.len(),
            pat@.len() >= 1,
            forall|j: int| 0 <= j < i ==> !matches_at(v@, pat@, j),
        decreases last + 1 - i,
    {
        if check_match(v, pat, i) {
            return Some(i);
        }
        i = i + 1;
    }
    None
}

/// Decide whether `pat` occurs in `v`.
pub fn contains_sub(v: &Vec<char>, pat: &Vec<char>) -> (r: bool)
    requires
        pat@.len() >= 1,
    ensures
        r == has_sub(v@, pat@),
{
    match find_sub(v, pat) {
        Some(_) => true,
        None => false,
    }
}

/// Find the first occurrence of the character, if any.
pub fn find_char(v: &Vec<char>, c: char) -> (r: Option<usize>)
    ensures
        match r {
            Some(i) => 0 <= i < v@.len() && v@[i as int] == c && forall|j: int|
                0 <= j < i ==> v@[j] != c,
            None => forall|j: int| 0 <= j < v@.len() ==> v@[j] != c,
        },
{
    let mut i: usize = 0;
    while i < v.len()
        invariant
            0 <= i <= v@.len(),
            forall|j: int| 0 <= j < i ==> v@[j] != c,
        decreases v@.len() - i,
    {
        if v[i] == c {
            return Some(i);
        }
        i = i + 1;
    }
    None
}

/// Find the last occurrence of the character, if any.
pub fn rfind_char(v: &Vec<char>, c: char) -> (r: Option<usize>)
    ensures
        match r {
            Some(i) => 0 <= i < v@.len() && v@[i as int] == c && forall|j: int|
                i < j < v@.len() ==> v@[j] != c,
            None => forall|j: int| 0 <= j < v@.len() ==> v@[j] != c,
        },
{
    let mut i: usize = v.len();
    while i > 0
        invariant
            0 <= i <= v@.len(),
            forall|j: int| i <= j < v@.len() ==> v@[j] != c,
        decreases i,
    {
        i = i - 1;
        if v[i] == c {
            return Some(i);
        }
    }
    None
}

/// The views of a list of character buffers.
pub open spec fn line_views(r: Seq<Vec<char>>) -> Seq<Seq<char>> {
    r.map_values(|l: Vec<char>| l@)
}

/// The lines of the text, split at every newline: `"a\nb\n"` has the three
/// lines `"a"`, `"b"` and `""`.
pub open spec fn lines_of(s: Seq<char>) -> Seq<Seq<char>>
    decreases s.len(),
{
    if s.len() == 0 {
        seq![Seq::<char>::empty()]
    } else if s[0] == '\n' {
        seq![Seq::<char>::empty()] + lines_of(s.drop_first())
    } else {
        let r = lines_of(s.drop_first());
        seq![seq![s[0]] + r[0]] + r.drop_first()
    }
}

/// The lines joined back with single newlines.
pub open spec fn unlines_of(ls: Seq<Seq<char>>) -> Seq<char>
    decreases ls.len(),
{
    if ls.len() <= 1 {
        if ls.len() == 0 {
            Seq::<char>::empty()
        } else {
            ls[0]
        }
    } else {
        ls[0] + seq!['\n'] + unlines_of(ls.drop_first())
    }
}

/// Splitting always yields at least one line.
pub proof fn lemma_lines_nonempty(s: Seq<char>)
    ensures
        lines_of(s).len() >= 1,
    decreases s.len(),
{
    if s.len() > 0 {
        lemma_lines_nonempty(s.drop_first());
    }
}

/// Joining the lines of a text gives the text back.
pub proof fn lemma_unlines_lines(s: Seq<char>)
    ensures
        unlines_of(lines_of(s)) == s,
    decreases s.len(),
{
    lemma_lines_nonempty(s);
    if s.len() == 0 {
    } else if s[0] == '\n' {
        lemma_unlines_lines(s.drop_first());
        lemma_lines_nonempty(s.drop_first());
        let ls = lines_of(s);
        let inner = lines_of(s.drop_first());
        assert(ls[0] =~= Seq::<char>::empty());
        assert(ls.drop_first() =~= inner);
        assert(unlines_of(ls) =~= s);
    } else {
        lemma_unlines_lines(s.drop_first());
        lemma_lines_nonempty(s.drop_first());
        let inner = lines_of(s.drop_first());
        let ls = lines_of(s);
        assert(ls[0] == seq![s[0]] + inner[0]);
        assert(ls.drop_first() =~= inner.drop_first());
        if inner.len() == 1 {
            assert(unlines_of(inner) == inner[0]);
            assert(inner[0] == s.drop_first());
            assert(ls.len() == 1);
            assert(unlines_of(ls) == ls[0]);
            assert(ls[0] == seq![s[0]] + inner[0]);
            assert(seq![s[0]] + s.drop_first() =~= s);
        } else {
            assert(unlines_of(inner) == inner[0] + seq!['\n'] + unlines_of(inner.drop_first()));
            assert(unlines_of(ls) == ls[0] + seq!['\n'] + unlines_of(ls.drop_first()));
            assert(unlines_of(ls) =~= seq![s[0]] + (inner[0] + seq!['\n'] + unlines_of(
                inner.drop_first(),
            )));
            assert(seq![s[0]] + s.drop_first() =~= s);
        }
    }
}

/// No character of `s` is a newline.
pub open spec fn no_newline(s: Seq<char>) -> bool {
    forall|i: int| 0 <= i < s.len() ==> s[i] != '\n'
}

/// Every line in `ls` is free of newlines.
pub open spec fn no_newlines(ls: Seq<Seq<char>>) -> bool {
    forall|i: int| 0 <= i < ls.len() ==> no_newline(#[trigger] ls[i])
}

/// A newline-free text is a single line.
pub proof fn lemma_lines_single(s: Seq<char>)
    requires
        no_newline(s),
    ensures
        lines_of(s) == seq![s],
    decreases s.len(),
{
    if s.len() == 0 {
        assert(s =~= Seq::<char>::empty());
        assert(lines_of(s) =~~= seq![s]);
    } else {
        assert(no_newline(s.drop_first())) by {
            assert(forall|i: int|
                0 <= i < s.drop_first().len() ==> s.drop_first()[i] == s[i + 1]);
        }
        lemma_lines_single(s.drop_first());
        assert(seq![s[0]] + s.drop_first() =~= s);
        assert(lines_of(s) =~~= seq![s]);
    }
}

/// Splitting `a + "\n" + t` for newline-free `a` yields `a` and the lines
/// of `t`.
pub proof fn lemma_lines_step(a: Seq<char>, t: Seq<char>)
    requires
        no_newline(a),
    ensures
        lines_of(a + seq!['\n'] + t) == seq![a] + lines_of(t),
    decreases a.len(),
{
    let s = a + seq!['\n'] + t;
    if a.len() == 0 {
        assert(s[0] == '\n');
        assert(s.drop_first() =~= t);
        assert(lines_of(s) == seq![Seq::<char>::empty()] + lines_of(t));
        assert(a =~= Seq::<char>::empty());
        assert(seq![Seq::<char>::empty()] + lines_of(t) =~~= seq![a] + lines_of(t));
    } else {
        let a1 = a.drop_first();
        assert(no_newline(a1)) by {
            assert(forall|i: int| 0 <= i < a1.len() ==> a1[i] == a[i + 1]);
        }
        lemma_lines_step(a1, t);
        assert(s[0] == a[0]);
        assert(s[0] != '\n');
        assert(s.drop_first() =~= a1 + seq!['\n'] + t);
        let r = lines_of(a1 + seq!['\n'] + t);
        assert(r == seq![a1] + lines_of(t));
        lemma_lines_nonempty(t);
        assert(r[0] == a1);
        assert(r.drop_first() =~= lines_of(t));
        assert(lines_of(s)[0] == seq![a[0]] + a1);
        assert(seq![a[0]] + a1 =~= a);
        assert(lines_of(s) =~= seq![a] + lines_of(t));
    }
}

/// Splitting the join of newline-free lines gives the lines back.
pub proof fn lemma_lines_unlines(ls: Seq<Seq<char>>)
    requires
        ls.len() >= 1,
        no_newlines(ls),
    ensures
        lines_of(unlines_of(ls)) == ls,
    decreases ls.len(),
{
    if ls.len() == 1 {
        lemma_lines_single(ls[0]);
        assert(lines_of(unlines_of(ls)) =~= ls);
    } else {
        let rest = ls.drop_first();
        assert(no_newlines(rest)) by {
            assert(forall|i: int| 0 <= i < rest.len() ==> rest[i] == ls[i + 1]);
        }
        lemma_lines_unlines(rest);
        lemma_lines_step(ls[0], unlines_of(rest));
        assert(lines_of(unlines_of(ls)) =~= ls);
    }
}

/// Joining one more line appends a newline and that line.
pub proof fn lemma_unlines_push(ls: Seq<Seq<char>>, l: Seq<char>)
    requires
        ls.len() >= 1,
    ensures
        unlines_of(ls.push(l)) == unlines_of(ls) + seq!['\n'] + l,
    decreases ls.len(),
{
    if ls.len() == 1 {
        let p = ls.push(l);
        assert(p.drop_first() =~= seq![l]);
        assert(unlines_of(p) == p[0] + seq!['\n'] + unlines_of(p.drop_first()));
    } else {
        lemma_unlines_push(ls.drop_first(), l);
        let p = ls.push(l);
        assert(p.drop_first() =~= ls.drop_first().push(l));
        assert(unlines_of(p) == p[0] + seq!['\n'] + unlines_of(p.drop_first()));
        assert(unlines_of(ls.push(l)) =~= unlines_of(ls) + seq!['\n'] + l);
    }
}

/// Split the buffer into its lines at every newline.
pub fn split_lines(v: &Vec<char>) -> (r: Vec<Vec<char>>)
    ensures
        line_views(r@) == lines_of(v@),
        r@.len() >= 1,
{
    let n = v.len();
    let mut done: Vec<Vec<char>> = Vec::new();
    let mut cur: Vec<char> = Vec::new();
    let mut i: usize = 0;
    proof {
        assert(v@.subrange(0, n as int) =~= v@);
        lemma_lines_nonempty(v@);
        let rest = lines_of(v@.subrange(0, n as int));
        assert(cur@ + rest[0] =~= rest[0]);
        assert(lines_of(v@) =~~= line_views(done@) + seq![cur@ + rest[0]] + rest.drop_first());
    }
    while i < n
        invariant
            0 <= i <= n,
            n == v@.len(),
            ({
                let rest = lines_of(v@.subrange(i as int, n as int));
                lines_of(v@) == line_views(done@) + seq![cur@ + rest[0]] + rest.drop_first()
            }),
        decreases n - i,
    {
        let ghost rest = lines_of(v@.subrange(i as int, n as int));
        let ghost rest2 = lines_of(v@.subrange(i + 1 as int, n as int));
        proof {
            lemma_lines_nonempty(v@.subrange(i as int, n as int));
            lemma_lines_nonempty(v@.subrange(i + 1 as int, n as int));
            assert(v@.subrange(i as int, n as int).drop_first() =~= v@.subrange(
                i + 1 as int,
                n as int,
            ));
            assert(v@.subrange(i as int, n as int)[0] == v@[i as int]);
        }
        let c = v[i];
        if c == '\n' {
            proof {
                assert(rest == seq![Seq::<char>::empty()] + rest2);
                assert(rest[0] == Seq::<char>::empty());
                assert(rest.drop_first() =~= rest2);
            }
            let ghost done0 = line_views(done@);
            let ghost cur0 = cur@;
            done.push(cur);
            cur = Vec::new();
            proof {
                assert(cur0 + rest[0] =~= cur0);
                assert(line_views(done@) =~~= done0.push(cur0));
                assert(cur@ + rest2[0] =~= rest2[0]);
                assert(line_views(done@) + seq![cur@ + rest2[0]] + rest2.drop_first()
                    =~~= (done0 + seq![cur0 + rest[0]]) + rest.drop_first());
            }
        } else {
            proof {
                assert(rest[0] == seq![v@[i as int]] + rest2[0]);
                assert(rest.drop_first() =~= rest2.drop_first());
            }
            let ghost cur0 = cur@;
            cur.push(c);
            proof {
                assert(cur@ + rest2[0] =~= cur0 + rest[0]);
                assert(line_views(done@) + seq![cur@ + rest2[0]] + rest2.drop_first()
                    =~~= line_views(done@) + seq![cur0 + rest[0]] + rest.drop_first());
            }
        }
        i = i + 1;
    }
    let ghost rest = lines_of(v@.subrange(n as int, n as int));
    proof {
        assert(v@.subrange(n as int, n as int) =~= Seq::<char>::empty());
        assert(rest == seq![Seq::<char>::empty()]);
        assert(cur@ + rest[0] =~= cur@);
        assert(rest.drop_first() =~= Seq::<Seq<char>>::empty());
    }
    let ghost done0 = line_views(done@);
    let ghost cur0 = cur@;
    done.push(cur);
    proof {
        assert(line_views(done@) =~~= done0.push(cur0));
        assert(lines_of(v@) =~~= line_views(done@));
    }
    done
}

/// Join the lines with single newlines.
pub fn join_lines(lines: &Vec<Vec<char>>) -> (r: Vec<char>)
    requires
        lines@.len() >= 1,
    ensures
        r@ == unlines_of(line_views(lines@)),
{
    let mut r: Vec<char> = Vec::new();
    let first = &lines[0];
    let mut j: usize = 0;
    while j < first.len()
        invariant
            0 <= j <= first@.len(),
            lines@.len() >= 1,
            first@ == lines@[0]@,
            r@ == first@.subrange(0, j as int),
        decreases first@.len() - j,
    {
        r.push(first[j]);
        proof {
            assert(r@ =~= first@.subrange(0, j + 1 as int));
        }
        j = j + 1;
    }
    proof {
        assert(r@ =~= lines@[0]@);
        assert(line_views(lines@).subrange(0, 1) =~= seq![lines@[0]@]);
        assert(unlines_of(seq![lines@[0]@]) == lines@[0]@);
    }
    let mut i: usize = 1;
    while i < lines.len()
        invariant
            1 <= i <= lines@.len(),
            r@ == unlines_of(line_views(lines@).subrange(0, i as int)),
        decreases lines@.len() - i,
    {
        let ghost prefix = line_views(lines@).subrange(0, i as int);
        r.push('\n');
        let line = &lines[i];
        let ghost r0 = r@;
        let mut k: usize = 0;
        while k < line.len()
            invariant
                0 <= k <= line@.len(),
                i < lines@.len(),
                line@ == lines@[i as int]@,
                r@ == r0 + line@.subrange(0, k as int),
                r0 == prefix_join_mark(prefix),
                prefix == line_views(lines@).subrange(0, i as int),
            decreases line@.len() - k,
        {
            r.push(line[k]);
            proof {
                assert(line@.subrange(0, k as int).push(line@[k as int]) =~= line@.subrange(
                    0,
                    k + 1 as int,
                ));
            }
            k = k + 1;
        }
        proof {
            assert(line@.subrange(0, line@.len() as int) =~= line@);
            assert(prefix.len() >= 1);
            lemma_unlines_push(prefix, lines@[i as int]@);
            assert(prefix.push(lines@[i as int]@) =~= line_views(lines@).subrange(
                0,
                i + 1 as int,
            ));
            assert(r@ =~= unlines_of(line_views(lines@).subrange(0, i + 1 as int)));
        }
        i = i + 1;
    }
    proof {
        assert(line_views(lines@).subrange(0, lines@.len() as int) =~= line_views(lines@));
    }
    r
}

/// The join of the lines so far, with the trailing newline that precedes
/// the next line.
pub open spec fn prefix_join_mark(prefix: Seq<Seq<char>>) -> Seq<char> {
    unlines_of(prefix) + seq!['\n']
}

/// What `str::to_lowercase` returns; the result depends on the characters
/// alone.
pub uninterp spec fn lower_of(s: Seq<char>) -> Seq<char>;

/// Relies on `str::to_lowercase`: Unicode lowercasing, a function of the
/// characters alone.
#[verifier::external_body]
pub(crate) fn lowercase(s: &str) -> (r: String)
    ensures
        r@ == lower_of(s@),
        s@.len() == 0 ==> r@.len() == 0,
{
    s.to_lowercase()
}

/// The length of the leading run of non-whitespace characters.
pub open spec fn token_len(s: Seq<char>) -> int
    decreases s.len(),
{
    if s.len() == 0 {
        0
    } else if is_space(s[0]) {
        0
    } else {
        1 + token_len(s.drop_first())
    }
}

/// The first whitespace-delimited token of the text.
pub open spec fn token_of(s: Seq<char>) -> Seq<char> {
    s.subrange(0, token_len(s))
}

/// `token_len` marks the first whitespace character, if any.
pub proof fn lemma_token_len(s: Seq<char>)
    ensures
        0 <= token_len(s) <= s.len(),
        forall|j: int| 0 <= j < token_len(s) ==> !is_space(s[j]),
        token_len(s) < s.len() ==> is_space(s[token_len(s)]),
    decreases s.len(),
{
    if s.len() > 0 && !is_space(s[0]) {
        let rest = s.drop_first();
        lemma_token_len(rest);
        assert forall|j: int| 0 <= j < token_len(s) implies !is_space(s[j]) by {
            if j > 0 {
                assert(rest[j - 1] == s[j]);
                assert(!is_space(rest[j - 1]));
            }
        }
        if token_len(s) < s.len() {
            assert(rest[token_len(rest)] == s[token_len(s)]);
        }
    }
}

/// Take the first whitespace-delimited token of the buffer.
pub fn take_token(v: &Vec<char>) -> (r: Vec<char>)
    ensures
        r@ == token_of(v@),
{
    proof {
        lemma_token_len(v@);
    }
    let n = v.len();
    let mut i: usize = 0;
    while i < n && !v[i].is_whitespace()
        invariant
            0 <= i <= n,
            n == v@.len(),
            forall|j: int| 0 <= j < i ==> !is_space(v@[j]),
        decreases n - i,
    {
        i = i + 1;
    }
    proof {
        assert(token_len(v@) == i as int) by {
            lemma_token_len(v@);
            let t = token_len(v@);
            if t < i as int {
                assert(!is_space(v@[t]));
            }
            if t > i as int {
                assert(is_space(v@[i as int]));
            }
        }
    }
    chars_subrange(v, 0, i)
}

/// Decide whether two character buffers hold the same characters.
pub fn chars_eq(a: &Vec<char>, b: &Vec<char>) -> (r: bool)
    ensures
        r == (a@ == b@),
{
    if a.len() != b.len() {
        proof {
            assert(a@.len() != b@.len());
        }
        return false;
    }
    let mut i: usize = 0;
    while i < a.len()
        invariant
            0 <= i <= a@.len(),
            a@.len() == b@.len(),
            forall|j: int| 0 <= j < i ==> a@[j] == b@[j],
        decreases a@.len() - i,
    {
        if a[i] != b[i] {
            return false;
        }
        i = i + 1;
    }
    proof {
        assert(a@ =~= b@);
    }
    true
}

/// Every line of a split text is free of newlines.
pub proof fn lemma_lines_no_newline(s: Seq<char>)
    ensures
        forall|i: int| 0 <= i < lines_of(s).len() ==> no_newline(#[trigger] lines_of(s)[i]),
    decreases s.len(),
{
    if s.len() == 0 {
    } else if s[0] == '\n' {
        lemma_lines_no_newline(s.drop_first());
        assert forall|i: int| 0 <= i < lines_of(s).len() implies no_newline(lines_of(s)[i]) by {
            if i > 0 {
                assert(lines_of(s)[i] == lines_of(s.drop_first())[i - 1]);
            }
        }
    } else {
        lemma_lines_no_newline(s.drop_first());
        let r = lines_of(s.drop_first());
        lemma_lines_nonempty(s.drop_first());
        assert forall|i: int| 0 <= i < lines_of(s).len() implies no_newline(lines_of(s)[i]) by {
            if i == 0 {
                assert(lines_of(s)[0] == seq![s[0]] + r[0]);
                assert(no_newline(r[0]));
                assert forall|j: int| 0 <= j < lines_of(s)[0].len() implies lines_of(s)[0][j]
                    != '\n' by {
                    if j > 0 {
                        assert(lines_of(s)[0][j] == r[0][j - 1]);
                    }
                }
            } else {
                assert(lines_of(s)[i] == r.drop_first()[i - 1]);
                assert(r.drop_first()[i - 1] == r[i]);
            }
        }
    }
}

/// Decide whether two string slices hold the same characters.
pub fn str_eq(a: &str, b: &str) -> (r: bool)
    ensures
        r == (a@ == b@),
{
    let n = a.unicode_len();
    let m = b.unicode_len();
    if n != m {
        return false;
    }
    let mut i: usize = 0;
    while i < n
        invariant
            0 <= i <= n,
            n == a@.len(),
            n == b@.len(),
            forall|j: int| 0 <= j < i ==> a@[j] == b@[j],
        decreases n - i,
    {
        if a.get_char(i) != b.get_char(i) {
            return false;
        }
        i = i + 1;
    }
    proof {
        assert(a@ =~= b@);
    }
    true
}

/// `p` is a suffix of `s`.
pub open spec fn has_suffix(s: Seq<char>, p: Seq<char>) -> bool {
    p.len() <= s.len() && s.subrange(s.len() - p.len(), s.len() as int) == p
}

/// Decide whether `p` is a suffix of `v`.
pub fn ends_with_chars(v: &Vec<char>, p: &Vec<char>) -> (r: bool)
    ensures
        r == has_suffix(v@, p@),
{
    let n = v.len();
    let m = p.len();
    if m > n {
        return false;
    }
    let off = n - m;
    let mut i: usize = 0;
    while i < m
        invariant
            0 <= i <= m,
            off == n - m,
            m <= n,
            n == v@.len(),
            m == p@.len(),
            forall|j: int| 0 <= j < i ==> v@[off + j] == p@[j],
        decreases m - i,
    {
        if v[off + i] != p[i] {
            proof {
                assert(v@.subrange(off as int, n as int)[i as int] != p@[i as int]);
            }
            return false;
        }
        i = i + 1;
    }
    proof {
        assert(v@.subrange(off as int, n as int) =~= p@);
    }
    true
}

/// The pieces of the text split at every occurrence of the separator
/// character.
pub open spec fn split_char_of(s: Seq<char>, sep: char) -> Seq<Seq<char>>
    decreases s.len(),
{
    if s.len() == 0 {
        seq![Seq::<char>::empty()]
    } else if s[0] == sep {
        seq![Seq::<char>::empty()] + split_char_of(s.drop_first(), sep)
    } else {
        let r = split_char_of(s.drop_first(), sep);
        seq![seq![s[0]] + r[0]] + r.drop_first()
    }
}

/// Splitting always yields at least one piece.
pub proof fn lemma_split_char_nonempty(s: Seq<char>, sep: char)
    ensures
        split_char_of(s, sep).len() >= 1,
    decreases s.len(),
{
    if s.len() > 0 {
        lemma_split_char_nonempty(s.drop_first(), sep);
    }
}

/// Split the buffer at every occurrence of the separator character.
pub fn split_on_char(v: &Vec<char>, sep: char) -> (r: Vec<Vec<char>>)
    requires
        sep != '\n',
    ensures
        line_views(r@) == split_char_of(v@, sep),
        r@.len() >= 1,
{
    let n = v.len();
    let mut done: Vec<Vec<char>> = Vec::new();
    let mut cur: Vec<char> = Vec::new();
    let mut i: usize = 0;
    proof {
        assert(v@.subrange(0, n as int) =~= v@);
        lemma_split_char_nonempty(v@, sep);
        let rest = split_char_of(v@.subrange(0, n as int), sep);
        assert(cur@ + rest[0] =~= rest[0]);
        assert(split_char_of(v@, sep) =~~= line_views(done@) + seq![cur@ + rest[0]]
            + rest.drop_first());
    }
    while i < n
        invariant
            0 <= i <= n,
            n == v@.len(),
            ({
                let rest = split_char_of(v@.subrange(i as int, n as int), sep);
                split_char_of(v@, sep) == line_views(done@) + seq![cur@ + rest[0]]
                    + rest.drop_first()
            }),
        decreases n - i,
    {
        let ghost rest = split_char_of(v@.subrange(i as int, n as int), sep);
        let ghost rest2 = split_char_of(v@.subrange(i + 1 as int, n as int), sep);
        proof {
            lemma_split_char_nonempty(v@.subrange(i as int, n as int), sep);
            lemma_split_char_nonempty(v@.subrange(i + 1 as int, n as int), sep);
            assert(v@.subrange(i as int, n as int).drop_first() =~= v@.subrange(
                i + 1 as int,
                n as int,
            ));
            assert(v@.subrange(i as int, n as int)[0] == v@[i as int]);
        }
        let c = v[i];
        if c == sep {
            proof {
                assert(rest == seq![Seq::<char>::empty()] + rest2);
                assert(rest[0] == Seq::<char>::empty());
                assert(rest.drop_first() =~= rest2);
            }
            let ghost done0 = line_views(done@);
            let ghost cur0 = cur@;
            done.push(cur);
            cur = Vec::new();
            proof {
                assert(cur0 + rest[0] =~= cur0);
                assert(line_views(done@) =~~= done0.push(cur0));
                assert(cur@ + rest2[0] =~= rest2[0]);
                assert(line_views(done@) + seq![cur@ + rest2[0]] + rest2.drop_first()
                    =~~= (done0 + seq![cur0 + rest[0]]) + rest.drop_first());
            }
        } else {
            proof {
                assert(rest[0] == seq![v@[i as int]] + rest2[0]);
                assert(rest.drop_first() =~= rest2.drop_first());
            }
            let ghost cur0 = cur@;
            cur.push(c);
            proof {
                assert(cur@ + rest2[0] =~= cur0 + rest[0]);
                assert(line_views(done@) + seq![cur@ + rest2[0]] + rest2.drop_first()
                    =~~= line_views(done@) + seq![cur0 + rest[0]] + rest.drop_first());
            }
        }
        i = i + 1;
    }
    let ghost rest = split_char_of(v@.subrange(n as int, n as int), sep);
    proof {
        assert(v@.subrange(n as int, n as int) =~= Seq::<char>::empty());
        assert(rest == seq![Seq::<char>::empty()]);
        assert(cur@ + rest[0] =~= cur@);
        assert(rest.drop_first() =~= Seq::<Seq<char>>::empty());
    }
    let ghost done0 = line_views(done@);
    let ghost cur0 = cur@;
    done.push(cur);
    proof {
        assert(line_views(done@) =~~= done0.push(cur0));
        assert(split_char_of(v@, sep) =~~= line_views(done@));
    }
    done
}

/// The index of the first occurrence of `pat` in `s`, or `-1` when absent.
pub open spec fn first_sub_index(s: Seq<char>, pat: Seq<char>) -> int
    decreases s.len(),
{
    if pat.len() > s.len() {
        -1
    } else if s.subrange(0, pat.len() as int) == pat {
        0
    } else if s.len() == 0 {
        -1
    } else {
        let r = first_sub_index(s.drop_first(), pat);
        if r == -1 {
            -1
        } else {
            1 + r
        }
    }
}

/// `first_sub_index` names the first match, when there is one.
pub proof fn lemma_first_sub_index(s: Seq<char>, pat: Seq<char>)
    requires
        pat.len() >= 1,
    ensures
        first_sub_index(s, pat) >= -1,
        first_sub_index(s, pat) == -1 ==> !has_sub(s, pat),
        first_sub_index(s, pat) >= 0 ==> matches_at(s, pat, first_sub_index(s, pat)),
        first_sub_index(s, pat) >= 0 ==> forall|j: int|
            0 <= j < first_sub_index(s, pat) ==> !matches_at(s, pat, j),
    decreases s.len(),
{
    let f = first_sub_index(s, pat);
    if pat.len() > s.len() {
        assert(forall|i: int| !matches_at(s, pat, i));
    } else if s.subrange(0, pat.len() as int) == pat {
        assert(matches_at(s, pat, 0));
    } else {
        let rest = s.drop_first();
        lemma_first_sub_index(rest, pat);
        let g = first_sub_index(rest, pat);
        if g == -1 {
            assert(f == -1);
            assert forall|i: int| !matches_at(s, pat, i) by {
                if 0 <= i && i + pat.len() <= s.len() {
                    if i == 0 {
                        assert(s.subrange(0, pat.len() as int) != pat);
                    } else {
                        assert(s.subrange(i, i + pat.len()) =~= rest.subrange(
                            i - 1,
                            i - 1 + pat.len(),
                        ));
                        assert(!matches_at(rest, pat, i - 1));
                    }
                }
            }
        } else {
            assert(f == 1 + g);
            assert(matches_at(rest, pat, g));
            assert(s.subrange(f, f + pat.len()) =~= rest.subrange(g, g + pat.len()));
            assert(matches_at(s, pat, f));
            assert forall|j: int| 0 <= j < f implies !matches_at(s, pat, j) by {
                if j == 0 {
                    assert(s.subrange(0, pat.len() as int) != pat);
                } else {
                    assert(s.subrange(j, j + pat.len()) =~= rest.subrange(
                        j - 1,
                        j - 1 + pat.len(),
                    ));
                    assert(!matches_at(rest, pat, j - 1));
                }
            }
        }
    }
}

/// The index of the first occurrence of the character, or `-1` when absent.
pub open spec fn first_char_index(s: Seq<char>, c: char) -> int
    decreases s.len(),
{
    if s.len() == 0 {
        -1
    } else if s[0] == c {
        0
    } else {
        let r = first_char_index(s.drop_first(), c);
        if r == -1 {
            -1
        } else {
            1 + r
        }
    }
}

/// `first_char_index` names the first occurrence, when there is one.
pub proof fn lemma_first_char_index(s: Seq<char>, c: char)
    ensures
        first_char_index(s, c) >= -1,
        first_char_index(s, c) == -1 ==> forall|j: int| 0 <= j < s.len() ==> s[j] != c,
        first_char_index(s, c) >= 0 ==> first_char_index(s, c) < s.len() && s[first_char_index(
            s,
            c,
        )] == c,
        first_char_index(s, c) >= 0 ==> forall|j: int|
            0 <= j < first_char_index(s, c) ==> s[j] != c,
    decreases s.len(),
{
    if s.len() > 0 && s[0] != c {
        let rest = s.drop_first();
        lemma_first_char_index(rest, c);
        let g = first_char_index(rest, c);
        if g == -1 {
            assert forall|j: int| 0 <= j < s.len() implies s[j] != c by {
                if j > 0 {
                    assert(rest[j - 1] == s[j]);
                }
            }
        } else {
            assert(rest[g] == s[g + 1]);
            assert forall|j: int| 0 <= j < first_char_index(s, c) implies s[j] != c by {
                if j > 0 {
                    assert(rest[j - 1] == s[j]);
                }
            }
        }
    }
}

/// The index of the last occurrence of the character, or `-1` when absent.
pub open spec fn last_char_index(s: Seq<char>, c: char) -> int
    decreases s.len(),
{
    if s.len() == 0 {
        -1
    } else if s.last() == c {
        s.len() - 1
    } else {
        last_char_index(s.drop_last(), c)
    }
}

/// `last_char_index` names the last occurrence, when there is one.
pub proof fn lemma_last_char_index(s: Seq<char>, c: char)
    ensures
        last_char_index(s, c) >= -1,
        last_char_index(s, c) == -1 ==> forall|j: int| 0 <= j < s.len() ==> s[j] != c,
        last_char_index(s, c) >= 0 ==> 0 <= last_char_index(s, c) < s.len() && s[last_char_index(
            s,
            c,
        )] == c,
        last_char_index(s, c) >= 0 ==> forall|j: int|
            last_char_index(s, c) < j < s.len() ==> s[j] != c,
    decreases s.len(),
{
    if s.len() > 0 && s.last() != c {
        lemma_last_char_index(s.drop_last(), c);
        assert(forall|j: int| 0 <= j < s.len() - 1 ==> s.drop_last()[j] == s[j]);
    }
}

/// Remove whitespace from the end of the buffer.
pub fn trim_end_chars(v: &Vec<char>) -> (r: Vec<char>)
    ensures
        r@ == drop_trailing(v@),
{
    let n = v.len();
    let mut b: usize = n;
    while b > 0 && v[b - 1].is_whitespace()
        invariant
            0 <= b <= n,
            n == v@.len(),
            forall|j: int| b <= j < n ==> is_space(v@[j]),
        decreases b,
    {
        b = b - 1;
    }
    let r = chars_subrange(v, 0, b);
    proof {
        lemma_drop_trailing_is_prefix(v@, b as int);
    }
    r
}

/// Whether the character is an ASCII letter or digit.
pub open spec fn is_ascii_alnum(c: char) -> bool {
    ('a' <= c && c <= 'z') || ('A' <= c && c <= 'Z') || ('0' <= c && c <= '9')
}

/// The ASCII-lowercased character.
pub open spec fn ascii_lower(c: char) -> char {
    if 'A' <= c && c <= 'Z' {
        ((c as u8) + 32) as char
    } else {
        c
    }
}

/// One character of input applied to the slug accumulator; the flag records
/// whether a dash was just written.
pub open spec fn slug_step(st: (Seq<char>, bool), c: char) -> (Seq<char>, bool) {
    if is_ascii_alnum(c) {
        (st.0.push(ascii_lower(c)), false)
    } else if !st.1 {
        (st.0.push('-'), true)
    } else {
        st
    }
}

/// The slug accumulator after consuming all of `s`.
pub open spec fn slug_run(st: (Seq<char>, bool), s: Seq<char>) -> (Seq<char>, bool)
    decreases s.len(),
{
    if s.len() == 0 {
        st
    } else {
        slug_run(slug_step(st, s[0]), s.drop_first())
    }
}

/// The text after dropping leading dashes.
pub open spec fn drop_leading_dashes(s: Seq<char>) -> Seq<char>
    decreases s.len(),
{
    if s.len() > 0 && s[0] == '-' {
        drop_leading_dashes(s.drop_first())
    } else {
        s
    }
}

/// The text after dropping trailing dashes.
pub open spec fn drop_trailing_dashes(s: Seq<char>) -> Seq<char>
    decreases s.len(),
{
    if s.len() > 0 && s.last() == '-' {
        drop_trailing_dashes(s.drop_last())
    } else {
        s
    }
}

/// The slug of the text: ASCII letters and digits lowercased, every other
/// run of characters collapsed to a single dash, with no dash at either end.
pub open spec fn slug_of(s: Seq<char>) -> Seq<char> {
    drop_trailing_dashes(drop_leading_dashes(slug_run((Seq::empty(), false), s).0))
}

/// `drop_leading_dashes` keeps exactly the suffix from the first non-dash.
pub proof fn lemma_drop_leading_dashes_is_suffix(s: Seq<char>, a: int)
    requires
        0 <= a <= s.len(),
        forall|j: int| 0 <= j < a ==> s[j] == '-',
        a == s.len() || s[a] != '-',
    ensures
        drop_leading_dashes(s) == s.subrange(a, s.len() as int),
    decreases a,
{
    if a == 0 {
        assert(s.subrange(0, s.len() as int) =~= s);
    } else {
        lemma_drop_leading_dashes_is_suffix(s.drop_first(), a - 1);
        assert(s.drop_first().subrange(a - 1, s.drop_first().len() as int) =~= s.subrange(
            a,
            s.len() as int,
        ));
    }
}

/// `drop_trailing_dashes` keeps exactly the prefix up to the last non-dash.
pub proof fn lemma_drop_trailing_dashes_is_prefix(s: Seq<char>, b: int)
    requires
        0 <= b <= s.len(),
        forall|j: int| b <= j < s.len() ==> s[j] == '-',
        b == 0 || s[b - 1] != '-',
    ensures
        drop_trailing_dashes(s) == s.subrange(0, b),
    decreases s.len() - b,
{
    if b == s.len() {
        if s.len() > 0 && s.last() == '-' {
            assert(s[b - 1] != '-');
            assert(false);
        }
        assert(s.subrange(0, s.len() as int) =~= s);
    } else {
        lemma_drop_trailing_dashes_is_prefix(s.drop_last(), b);
        assert(s.drop_last().subrange(0, b) =~= s.subrange(0, b));
    }
}

/// Check whether the character is an ASCII letter or digit.
pub fn check_ascii_alnum(c: char) -> (r: bool)
    ensures
        r == is_ascii_alnum(c),
{
    ('a' <= c && c <= 'z') || ('A' <= c && c <= 'Z') || ('0' <= c && c <= '9')
}

/// Compute the slug of the text.
pub fn slug_chars(v: &Vec<char>) -> (r: Vec<char>)
    ensures
        r@ == slug_of(v@),
{
    let n = v.len();
    let mut acc: Vec<char> = Vec::new();
    let mut last_dash = false;
    let mut i: usize = 0;
    proof {
        assert(v@.subrange(0, n as int) =~= v@);
    }
    while i < n
        invariant
            0 <= i <= n,
            n == v@.len(),
            slug_run((acc@, last_dash), v@.subrange(i as int, n as int)) == slug_run(
                (Seq::<char>::empty(), false),
                v@,
            ),
        decreases n - i,
    {
        let ghost rest = v@.subrange(i as int, n as int);
        let ghost st0 = (acc@, last_dash);
        proof {
            assert(rest[0] == v@[i as int]);
            assert(rest.drop_first() =~= v@.subrange(i + 1 as int, n as int));
        }
        let c = v[i];
        if check_ascii_alnum(c) {
            let lc = if 'A' <= c && c <= 'Z' {
                ((c as u8) + 32) as char
            } else {
                c
            };
            acc.push(lc);
            last_dash = false;
        } else if !last_dash {
            acc.push('-');
            last_dash = true;
        }
        proof {
            assert((acc@, last_dash) == slug_step(st0, rest[0]));
        }
        i = i + 1;
    }
    proof {
        assert(v@.subrange(n as int, n as int) =~= Seq::<char>::empty());
    }
    // strip dashes from both ends
    let m = acc.len();
    let mut a: usize = 0;
    while a < m && acc[a] == '-'
        invariant
            0 <= a <= m,
            m == acc@.len(),
            forall|j: int| 0 <= j < a ==> acc@[j] == '-',
        decreases m - a,
    {
        a = a + 1;
    }
    if a == m {
        proof {
            lemma_drop_leading_dashes_is_suffix(acc@, m as int);
            assert(acc@.subrange(m as int, m as int) =~= Seq::<char>::empty());
            lemma_drop_trailing_dashes_is_prefix(Seq::<char>::empty(), 0);
            assert(Seq::<char>::empty().subrange(0, 0) =~= Seq::<char>::empty());
        }
        return Vec::new();
    }
    let mut b: usize = m;
    while b > a + 1 && acc[b - 1] == '-'
        invariant
            a + 1 <= b <= m,
            m == acc@.len(),
            forall|j: int| b <= j < m ==> acc@[j] == '-',
        decreases b,
    {
        b = b - 1;
    }
    let r = chars_subrange(&acc, a, b);
    proof {
        lemma_drop_leading_dashes_is_suffix(acc@, a as int);
        let tail = acc@.subrange(a as int, m as int);
        assert(acc@[a as int] != '-');
        assert(b == a + 1 || acc@[b - 1] != '-');
        assert(tail[(b - a - 1) as int] != '-');
        lemma_drop_trailing_dashes_is_prefix(tail, (b - a) as int);
        assert(tail.subrange(0, (b - a) as int) =~= acc@.subrange(a as int, b as int));
    }
    r
}

/// Append the characters of a string slice to the buffer.
pub fn append_str(v: &mut Vec<char>, s: &str)
    ensures
        final(v)@ == old(v)@ + s@,
{
    let mut w = str_to_chars(s);
    v.append(&mut w);
}

/// Build a string from a vector of characters.
pub fn chars_to_string(v: &Vec<char>) -> (r: String)
    ensures
        r@ == v@,
{
    let mut r = String::new();
    let mut i: usize = 0;
    while i < v.len()
        invariant
            0 <= i <= v@.len(),
            r@ == v@.subrange(0, i as int),
        decreases v@.len() - i,
    {
        r.push(v[i]);
        proof {
            assert(r@ =~= v@.subrange(0, i + 1 as int));
        }
        i = i + 1;
    }
    proof {
        assert(r@ =~= v@);
    }
    r
}

} // verus!
