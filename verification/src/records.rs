//! Record-table helpers.
//!
//! Arbitrary application records are key/value rows put by a user.  Two
//! pieces of that path are computation rather than storage and live
//! here: building the prefix-search pattern for a key — every pattern
//! metacharacter escaped, a single trailing wildcard — and grouping the
//! rows a prefix search returns by their full key.

use vstd::prelude::*;
use crate::codec::chars_to_string;
use crate::store::str_eq;

verus! {

/// A chest record awaiting insertion.
pub struct NewChest {
    pub position: i64,
    pub lv: i16,
    pub found_by: i64,
}

/// A user row awaiting insertion.
pub struct NewUser<'a> {
    pub uuid: &'a str,
}

/// How one character enters a search pattern: the pattern
/// metacharacters `\`, `%` and `_` get a `\` escape, the rest stand
/// as they are.
pub open spec fn escaped_char(c: char) -> Seq<char> {
    if c == '\\' || c == '%' || c == '_' {
        seq!['\\', c]
    } else {
        seq![c]
    }
}

/// A key with every pattern metacharacter escaped.
pub open spec fn escape_chars(s: Seq<char>) -> Seq<char>
    decreases s.len(),
{
    if s.len() == 0 {
        Seq::empty()
    } else {
        escape_chars(s.drop_last()) + escaped_char(s.last())
    }
}

/// The prefix-search pattern for a key: the key escaped, then one
/// trailing wildcard.
pub open spec fn like_pattern(s: Seq<char>) -> Seq<char> {
    escape_chars(s).push('%')
}

/// Builds the search pattern that matches exactly the keys extending
/// `key`: characters the pattern language would interpret are escaped,
/// and a single wildcard closes the pattern.
pub fn build_like_pattern(key: &str) -> (r: String)
    ensures
        r@ == like_pattern(key@),
{
    let n = key.unicode_len();
    let mut out: Vec<char> = Vec::new();
    let mut i: usize = 0;
    while i < n
        invariant
            i <= n,
            n == key@.len(),
            out@ == escape_chars(key@.subrange(0, i as int)),
        decreases n - i,
    {
        let c = key.get_char(i);
        if c == '\\' || c == '%' || c == '_' {
            out.push('\\');
            out.push(c);
        } else {
            out.push(c);
        }
        proof {
            assert(key@.subrange(0, i + 1).drop_last() =~= key@.subrange(0, i as int));
            assert(key@.subrange(0, i + 1).last() == key@[i as int]);
            assert(out@ =~= escape_chars(key@.subrange(0, i + 1)));
        }
        i = i + 1;
    }
    out.push('%');
    proof {
        assert(key@.subrange(0, n as int) =~= key@);
        assert(out@ =~= like_pattern(key@));
    }
    chars_to_string(&out)
}

/// True when no two groups share a key.
pub open spec fn distinct_keys(g: Seq<(Seq<char>, Seq<Seq<char>>)>) -> bool {
    forall|i: int, j: int| 0 <= i < j < g.len() ==> (#[trigger] g[i]).0 != (#[trigger] g[j]).0
}

/// The rows grouped by key, keys in first-seen order, each group's
/// values in row order.
pub open spec fn group_spec(rows: Seq<(Seq<char>, Seq<char>)>) -> Seq<(Seq<char>, Seq<Seq<char>>)>
    decreases rows.len(),
{
    if rows.len() == 0 {
        Seq::empty()
    } else {
        let g = group_spec(rows.drop_last());
        let r = rows.last();
        if exists|i: int| 0 <= i < g.len() && (#[trigger] g[i]).0 == r.0 {
            let i = choose|i: int| 0 <= i < g.len() && (#[trigger] g[i]).0 == r.0;
            g.update(i, (g[i].0, g[i].1.push(r.1)))
        } else {
            g.push((r.0, seq![r.1]))
        }
    }
}

/// Grouping never yields two groups with one key.
proof fn lemma_group_distinct(rows: Seq<(Seq<char>, Seq<char>)>)
    ensures
        distinct_keys(group_spec(rows)),
    decreases rows.len(),
{
    if rows.len() > 0 {
        lemma_group_distinct(rows.drop_last());
    }
}

/// The values the rows hold under one key, in row order.
pub open spec fn values_of(rows: Seq<(Seq<char>, Seq<char>)>, key: Seq<char>) -> Seq<Seq<char>> {
    rows.filter(|r: (Seq<char>, Seq<char>)| r.0 == key).map_values(
        |r: (Seq<char>, Seq<char>)| r.1,
    )
}

/// The grouping is exactly the rows regrouped: keys are never repeated,
/// every row's key has its group, and each group lists precisely the
/// values its key holds across the rows, in row order.
pub proof fn lemma_group_characterizes(rows: Seq<(Seq<char>, Seq<char>)>)
    ensures
        distinct_keys(group_spec(rows)),
        forall|i: int|
            0 <= i < group_spec(rows).len() ==> (#[trigger] group_spec(rows)[i]).1 == values_of(
                rows,
                group_spec(rows)[i].0,
            ),
        forall|j: int|
            0 <= j < rows.len() ==> exists|i: int|
                0 <= i < group_spec(rows).len() && (#[trigger] group_spec(rows)[i]).0 == (
                #[trigger] rows[j]).0,
    decreases rows.len(),
{
    lemma_group_distinct(rows);
    if rows.len() > 0 {
        let prior = rows.drop_last();
        let r = rows.last();
        let gp = group_spec(prior);
        let g = group_spec(rows);
        lemma_group_characterizes(prior);
        lemma_group_distinct(prior);
        assert forall|key: Seq<char>| true implies values_of(rows, key) == if r.0 == key {
            values_of(prior, key).push(r.1)
        } else {
            values_of(prior, key)
        } by {
            let p = |x: (Seq<char>, Seq<char>)| x.0 == key;
            prior.lemma_filter_push(r, p);
            assert(rows == prior.push(r));
            if r.0 == key {
                assert(values_of(rows, key) =~= values_of(prior, key).push(r.1));
            } else {
                assert(values_of(rows, key) =~= values_of(prior, key));
            }
        }
        if exists|i: int| 0 <= i < gp.len() && (#[trigger] gp[i]).0 == r.0 {
            let k = choose|i: int| 0 <= i < gp.len() && (#[trigger] gp[i]).0 == r.0;
            assert(g == gp.update(k, (gp[k].0, gp[k].1.push(r.1))));
            assert forall|i: int| 0 <= i < g.len() implies (#[trigger] g[i]).1 == values_of(
                rows,
                g[i].0,
            ) by {
                if i == k {
                    assert(g[i].0 == r.0);
                    assert(g[i].1 == gp[k].1.push(r.1));
                    assert(gp[k].1 == values_of(prior, r.0));
                } else {
                    assert(g[i] == gp[i]);
                    assert(gp[i].0 != r.0);
                }
            }
            assert forall|j: int| 0 <= j < rows.len() implies exists|i: int|
                0 <= i < g.len() && (#[trigger] g[i]).0 == (#[trigger] rows[j]).0 by {
                if j == rows.len() - 1 {
                    assert(g[k].0 == rows[j].0);
                } else {
                    assert(rows[j] == prior[j]);
                    let i = choose|i: int| 0 <= i < gp.len() && (#[trigger] gp[i]).0 == prior[j].0;
                    assert(g[i].0 == gp[i].0);
                }
            }
        } else {
            assert(g == gp.push((r.0, seq![r.1])));
            assert forall|i: int| 0 <= i < g.len() implies (#[trigger] g[i]).1 == values_of(
                rows,
                g[i].0,
            ) by {
                if i == g.len() - 1 {
                    assert(g[i] == (r.0, seq![r.1]));
                    assert(values_of(prior, r.0).len() == 0) by {
                        if values_of(prior, r.0).len() > 0 {
                            let p = |x: (Seq<char>, Seq<char>)| x.0 == r.0;
                            prior.lemma_filter_pred(p, 0);
                            prior.lemma_filter_contains_rev(p, prior.filter(p)[0]);
                            let j = choose|j: int|
                                0 <= j < prior.len() && prior[j] == prior.filter(p)[0];
                            let i2 = choose|i2: int|
                                0 <= i2 < gp.len() && (#[trigger] gp[i2]).0 == prior[j].0;
                        }
                    }
                    assert(values_of(rows, r.0) =~= seq![r.1]);
                } else {
                    assert(g[i] == gp[i]);
                    assert(gp[i].0 != r.0);
                }
            }
            assert forall|j: int| 0 <= j < rows.len() implies exists|i: int|
                0 <= i < g.len() && (#[trigger] g[i]).0 == (#[trigger] rows[j]).0 by {
                if j == rows.len() - 1 {
                    assert(g[g.len() - 1].0 == rows[j].0);
                } else {
                    assert(rows[j] == prior[j]);
                    let i = choose|i: int| 0 <= i < gp.len() && (#[trigger] gp[i]).0 == prior[j].0;
                    assert(g[i].0 == gp[i].0);
                }
            }
        }
    }
}

/// Groups key/value rows by key: keys appear in first-seen order, each
/// exactly once; each group lists its key's values in row order.
pub fn group_rows(rows: &Vec<(String, String)>) -> (g: Vec<(String, Vec<String>)>)
    ensures
        g.deep_view() == group_spec(rows.deep_view()),
{
    let mut g: Vec<(String, Vec<String>)> = Vec::new();
    let mut i: usize = 0;
    while i < rows.len()
        invariant
            i <= rows@.len(),
            rows.deep_view().len() == rows@.len(),
            g.deep_view() == group_spec(rows.deep_view().subrange(0, i as int)),
            distinct_keys(g.deep_view()),
        decreases rows@.len() - i,
    {
        let ghost prefix = rows.deep_view().subrange(0, i as int);
        let ghost prefix1 = rows.deep_view().subrange(0, i + 1);
        proof {
            assert(prefix1.drop_last() =~= prefix);
            assert(prefix1.last() == rows.deep_view()[i as int]);
            assert(rows.deep_view()[i as int] == (rows@[i as int].0@, rows@[i as int].1@));
        }
        let mut j: usize = 0;
        let mut found = false;
        while j < g.len() && !found
            invariant
                j <= g@.len(),
                g.deep_view().len() == g@.len(),
                i < rows@.len(),
                rows.deep_view().len() == rows@.len(),
                rows.deep_view()[i as int] == (rows@[i as int].0@, rows@[i as int].1@),
                !found ==> forall|k: int|
                    0 <= k < j ==> (#[trigger] g.deep_view()[k]).0 != rows@[i as int].0@,
                found ==> j < g@.len() && g.deep_view()[j as int].0 == rows@[i as int].0@,
            decreases g@.len() - j + if found {
                0int
            } else {
                1int
            },
        {
            proof {
                assert(g.deep_view()[j as int] == (g@[j as int].0@, g@[j as int].1.deep_view()));
            }
            if str_eq(g[j].0.as_str(), rows[i].0.as_str()) {
                found = true;
            } else {
                j = j + 1;
            }
        }
        let ghost gd = g.deep_view();
        let ghost r = (rows@[i as int].0@, rows@[i as int].1@);
        let value = rows[i].1.clone();
        if found {
            proof {
                assert(gd[j as int] == (g@[j as int].0@, g@[j as int].1.deep_view()));
                assert(exists|k: int| 0 <= k < gd.len() && (#[trigger] gd[k]).0 == r.0);
                let k = choose|k: int| 0 <= k < gd.len() && (#[trigger] gd[k]).0 == r.0;
                if k != j as int {
                    assert(gd[k].0 == gd[j as int].0);
                }
            }
            let ghost old_g = g@;
            let mut pair = g.remove(j);
            pair.1.push(value);
            g.insert(j, pair);
            proof {
                assert(g@ =~= old_g.update(j as int, pair));
                assert(pair.0@ == gd[j as int].0);
                assert(pair.1.deep_view() =~= gd[j as int].1.push(r.1));
                assert(g.deep_view() =~~= gd.update(j as int, (gd[j as int].0, gd[
                    j as int].1.push(r.1))));
                assert(g.deep_view() == group_spec(prefix1));
            }
        } else {
            proof {
                assert forall|k: int| 0 <= k < gd.len() implies (#[trigger] gd[k]).0 != r.0 by {
                    assert(gd[k] == (g@[k].0@, g@[k].1.deep_view()));
                }
            }
            let key = rows[i].0.clone();
            let mut vals: Vec<String> = Vec::new();
            vals.push(value);
            g.push((key, vals));
            proof {
                assert(vals.deep_view() =~= seq![r.1]);
                assert(!(exists|k: int| 0 <= k < gd.len() && (#[trigger] gd[k]).0 == r.0));
                assert(g.deep_view() =~~= gd.push((r.0, seq![r.1])));
                assert(g.deep_view() == group_spec(prefix1));
            }
        }
        proof {
            lemma_group_distinct(prefix1);
        }
        i = i + 1;
    }
    proof {
        assert(rows.deep_view().subrange(0, rows@.len() as int) =~= rows.deep_view());
    }
    g
}

} // verus!
