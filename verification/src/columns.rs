//! Column splitting for column-aligned, human-readable tables.
//!
//! Any run of two or more consecutive whitespace characters is a column
//! boundary; a single interior space is preserved as part of the current
//! column's value.

use vstd::prelude::*;
use crate::text::chars_to_string;
use crate::text::is_space;
use crate::text::str_to_chars;
use crate::text::trim_chars;
use crate::text::trim_of;

verus! {

/// The splitter's intermediate state: finished columns, the column being
/// accumulated, and the length of the current whitespace run.
pub ghost struct ColState {
    pub cols: Seq<Seq<char>>,
    pub cur: Seq<char>,
    pub run: nat,
}

/// One character of input applied to the splitter state.
pub open spec fn col_step(st: ColState, c: char) -> ColState {
    if is_space(c) {
        ColState { cols: st.cols, cur: st.cur, run: st.run + 1 }
    } else if st.run >= 2 {
        let t = trim_of(st.cur);
        ColState {
            cols: if t.len() > 0 {
                st.cols.push(t)
            } else {
                st.cols
            },
            cur: seq![c],
            run: 0,
        }
    } else if st.run == 1 {
        ColState { cols: st.cols, cur: st.cur.push(' ').push(c), run: 0 }
    } else {
        ColState { cols: st.cols, cur: st.cur.push(c), run: 0 }
    }
}

/// The splitter state after consuming all of `s`.
pub open spec fn col_run(st: ColState, s: Seq<char>) -> ColState
    decreases s.len(),
{
    if s.len() == 0 {
        st
    } else {
        col_run(col_step(st, s[0]), s.drop_first())
    }
}

/// The columns of a table line: runs of two or more whitespace characters
/// separate columns; a single interior space stays in its column.
pub open spec fn spec_split_columns(s: Seq<char>) -> Seq<Seq<char>> {
    let st = col_run(ColState { cols: Seq::empty(), cur: Seq::empty(), run: 0 }, s);
    let t = trim_of(st.cur);
    if t.len() > 0 {
        st.cols.push(t)
    } else {
        st.cols
    }
}

/// The views of a list of strings.
pub open spec fn strings_view(s: Seq<String>) -> Seq<Seq<char>> {
    s.map_values(|x: String| x@)
}

/// Split a table line into its columns.
pub fn split_columns(line: &str) -> (r: Vec<String>)
    ensures
        strings_view(r@) == spec_split_columns(line@),
{
    let v = str_to_chars(line);
    let n = v.len();
    let ghost init = ColState { cols: Seq::empty(), cur: Seq::empty(), run: 0 };
    let mut cols: Vec<Vec<char>> = Vec::new();
    let mut cur: Vec<char> = Vec::new();
    let mut run: usize = 0;
    let mut i: usize = 0;
    proof {
        assert(v@.subrange(0, n as int) =~= v@);
        assert(crate::text::line_views(cols@) =~= Seq::<Seq<char>>::empty());
        assert(ColState {
            cols: crate::text::line_views(cols@),
            cur: cur@,
            run: run as nat,
        } == init);
    }
    while i < n
        invariant
            0 <= i <= n,
            n == v@.len(),
            v@ == line@,
            run <= i,
            col_run(
                ColState { cols: crate::text::line_views(cols@), cur: cur@, run: run as nat },
                v@.subrange(i as int, n as int),
            ) == col_run(init, v@),
            init == (ColState { cols: Seq::<Seq<char>>::empty(), cur: Seq::<char>::empty(), run: 0nat }),
        decreases n - i,
    {
        let ghost rest = v@.subrange(i as int, n as int);
        let ghost st0 = ColState {
            cols: crate::text::line_views(cols@),
            cur: cur@,
            run: run as nat,
        };
        proof {
            assert(rest[0] == v@[i as int]);
            assert(rest.drop_first() =~= v@.subrange(i + 1 as int, n as int));
        }
        let c = v[i];
        if c.is_whitespace() {
            run = run + 1;
        } else if run >= 2 {
            let t = trim_chars(&cur);
            let ghost cols0 = crate::text::line_views(cols@);
            if t.len() > 0 {
                cols.push(t);
                proof {
                    assert(crate::text::line_views(cols@) =~~= cols0.push(trim_of(cur@)));
                }
            }
            cur = Vec::new();
            cur.push(c);
            run = 0;
            proof {
                assert(cur@ =~= seq![v@[i as int]]);
            }
        } else if run == 1 {
            cur.push(' ');
            cur.push(c);
            run = 0;
        } else {
            cur.push(c);
            run = 0;
        }
        proof {
            assert(ColState {
                cols: crate::text::line_views(cols@),
                cur: cur@,
                run: run as nat,
            } == col_step(st0, rest[0]));
        }
        i = i + 1;
    }
    proof {
        assert(v@.subrange(n as int, n as int) =~= Seq::<char>::empty());
    }
    let t = trim_chars(&cur);
    let ghost colsv = crate::text::line_views(cols@);
    if t.len() > 0 {
        cols.push(t);
        proof {
            assert(crate::text::line_views(cols@) =~~= colsv.push(trim_of(cur@)));
        }
    }
    let mut r: Vec<String> = Vec::new();
    let mut k: usize = 0;
    while k < cols.len()
        invariant
            0 <= k <= cols@.len(),
            strings_view(r@) == crate::text::line_views(cols@).subrange(0, k as int),
        decreases cols@.len() - k,
    {
        let ghost r0 = strings_view(r@);
        let s = chars_to_string(&cols[k]);
        r.push(s);
        proof {
            assert(strings_view(r@) =~= r0.push(cols@[k as int]@));
            assert(crate::text::line_views(cols@).subrange(0, k + 1 as int) =~= crate::text::line_views(
                cols@,
            ).subrange(0, k as int).push(cols@[k as int]@));
        }
        k = k + 1;
    }
    proof {
        assert(crate::text::line_views(cols@).subrange(0, cols@.len() as int)
            =~= crate::text::line_views(cols@));
        assert(strings_view(r@) =~~= spec_split_columns(line@));
    }
    r
}

} // verus!
