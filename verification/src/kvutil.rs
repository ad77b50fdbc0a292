//! Grouping of key-value rows by the part of their key before the last `/`.

use vstd::prelude::*;
use crate::text::{chars_eq, chars_of, string_from_chars};

verus! {

/// The position of the last `c` in `s`, if any.
pub open spec fn last_index_of(s: Seq<char>, c: char) -> Option<nat>
    decreases s.len(),
{
    if s.len() == 0 {
        None
    } else if s.last() == c {
        Some((s.len() - 1) as nat)
    } else {
        last_index_of(s.drop_last(), c)
    }
}

/// `str::rsplit_once`: the parts before and after the last `c`.
pub open spec fn rsplit_once(s: Seq<char>, c: char) -> Option<(Seq<char>, Seq<char>)> {
    match last_index_of(s, c) {
        Some(i) => Some((s.take(i as int), s.skip(i as int + 1))),
        None => None,
    }
}

/// A row split into the key before the last `/`, the property after it, and
/// the value; rows without `/` are dropped.
pub open spec fn split_rows(rows: Seq<(Seq<char>, Seq<u8>)>) -> Seq<(Seq<char>, Seq<char>, Seq<u8>)>
    decreases rows.len(),
{
    if rows.len() == 0 {
        Seq::empty()
    } else {
        let prev = split_rows(rows.drop_last());
        match rsplit_once(rows.last().0, '/') {
            Some((k, p)) => prev.push((k, p, rows.last().1)),
            None => prev,
        }
    }
}

/// Runs of neighbouring entries with the same key, each with the entries'
/// properties and values in order.
pub open spec fn group_runs(e: Seq<(Seq<char>, Seq<char>, Seq<u8>)>) -> Seq<(Seq<char>, Seq<(Seq<char>, Seq<u8>)>)>
    decreases e.len(),
{
    if e.len() == 0 {
        Seq::empty()
    } else {
        let g = group_runs(e.drop_last());
        let (k, p, v) = e.last();
        if g.len() > 0 && g.last().0 == k {
            g.update(g.len() - 1, (k, g.last().1.push((p, v))))
        } else {
            g.push((k, seq![(p, v)]))
        }
    }
}

/// A property list read as a map: a later entry overrides an earlier one.
pub open spec fn props_map(s: Seq<(Seq<char>, Seq<u8>)>) -> Map<Seq<char>, Seq<u8>>
    decreases s.len(),
{
    if s.len() == 0 {
        Map::empty()
    } else {
        props_map(s.drop_last()).insert(s.last().0, s.last().1)
    }
}

/// No property name occurs twice.
pub open spec fn unique_names(s: Seq<(Seq<char>, Seq<u8>)>) -> bool {
    forall|i: int, j: int| 0 <= i < j < s.len() ==> s[i].0 != s[j].0
}

/// The view of a row.
pub open spec fn row_view(r: (String, Vec<u8>)) -> (Seq<char>, Seq<u8>) {
    (r.0@, r.1@)
}

/// The view of a grouped row: the key and its properties.
pub open spec fn props_view(p: Vec<(String, Vec<u8>)>) -> Seq<(Seq<char>, Seq<u8>)> {
    p@.map_values(|r: (String, Vec<u8>)| row_view(r))
}

/// Groups rows by the part of their key before the last `/`: neighbouring rows
/// with the same such key form one group, which maps each property (the part
/// after the last `/`) to its value, the later row winning. Rows whose key has
/// no `/` are left out.
pub fn group_kv_rows_by_prefix(rows: &[(String, Vec<u8>)]) -> (res: Vec<(String, Vec<(String, Vec<u8>)>)>)
    ensures
        ({
            let g = group_runs(split_rows(rows@.map_values(|r: (String, Vec<u8>)| row_view(r))));
            &&& res@.len() == g.len()
            &&& forall|i: int| 0 <= i < res@.len() ==> {
                &&& (#[trigger] res@[i]).0@ == g[i].0
                &&& unique_names(props_view(res@[i].1))
                &&& props_map(props_view(res@[i].1)) == props_map(g[i].1)
            }
        }),
{
    let ghost rv = rows@.map_values(|r: (String, Vec<u8>)| row_view(r));
    let mut out: Vec<(String, Vec<(String, Vec<u8>)>)> = Vec::new();
    let mut cur_key: Vec<char> = Vec::new();
    let mut i: usize = 0;
    while i < rows.len()
        invariant
            i <= rows.len(),
            rv == rows@.map_values(|r: (String, Vec<u8>)| row_view(r)),
            ({
                let g = group_runs(split_rows(rv.take(i as int)));
                &&& out@.len() == g.len()
                &&& g.len() > 0 ==> cur_key@ == g.last().0
                &&& forall|q: int| 0 <= q < out@.len() ==> {
                    &&& (#[trigger] out@[q]).0@ == g[q].0
                    &&& unique_names(props_view(out@[q].1))
                    &&& props_map(props_view(out@[q].1)) == props_map(g[q].1)
                }
            }),
        decreases rows.len() - i,
    {
        proof {
            assert(rv.take(i + 1).drop_last() == rv.take(i as int));
            assert(rv.take(i + 1).last() == row_view(rows@[i as int]));
        }
        let key = chars_of(rows[i].0.as_str());
        let mut j: usize = key.len();
        while j > 0 && key[j - 1] != '/'
            invariant
                j <= key.len(),
                forall|q: int| j <= q < key.len() ==> key@[q] != '/',
            decreases j,
        {
            j -= 1;
        }
        proof {
            lemma_last_index_of(key@, '/', j as int);
        }
        if j > 0 {
            let mut prefix: Vec<char> = Vec::new();
            let mut k: usize = 0;
            while k < j - 1
                invariant
                    0 < j <= key.len(),
                    k <= j - 1,
                    prefix@ == key@.take(k as int),
                decreases j - 1 - k,
            {
                prefix.push(key[k]);
                assert(key@.take(k + 1) == key@.take(k as int).push(key@[k as int]));
                k += 1;
            }
            let mut prop: Vec<char> = Vec::new();
            let mut k: usize = j;
            while k < key.len()
                invariant
                    j <= k <= key.len(),
                    prop@ == key@.subrange(j as int, k as int),
                decreases key.len() - k,
            {
                prop.push(key[k]);
                assert(key@.subrange(j as int, k + 1) == key@.subrange(j as int, k as int).push(key@[k as int]));
                k += 1;
            }
            proof {
                assert(prefix@ == key@.take(j - 1));
                assert(prop@ == key@.skip(j as int));
            }
            let value = rows[i].1.clone();
            let prop_s = string_from_chars(prop.as_slice());
            let ghost e0 = split_rows(rv.take(i as int));
            let ghost g0 = group_runs(e0);
            let ghost entry = (prefix@, prop@, rows@[i as int].1@);
            proof {
                assert(rsplit_once(key@, '/') == Some((prefix@, prop@)));
                assert(split_rows(rv.take(i + 1)) == e0.push(entry));
                assert(e0.push(entry).drop_last() == e0);
            }
            let n = out.len();
            if n > 0 && chars_eq(cur_key.as_slice(), prefix.as_slice()) {
                let ghost out0 = out@;
                let mut group = out.pop().unwrap();
                proof {
                    assert(out@ == out0.drop_last());
                    assert(group == out0[n - 1]);
                }
                add_prop(&mut group.1, prop_s, value);
                out.push(group);
                proof {
                    let g1 = group_runs(split_rows(rv.take(i + 1)));
                    assert(g1 == g0.update(g0.len() - 1, (prefix@, g0.last().1.push((prop@, rows@[i as int].1@)))));
                    assert forall|q: int| 0 <= q < out@.len() implies {
                        &&& (#[trigger] out@[q]).0@ == g1[q].0
                        &&& unique_names(props_view(out@[q].1))
                        &&& props_map(props_view(out@[q].1)) == props_map(g1[q].1)
                    } by {
                        if q < n - 1 {
                            assert(out@[q] == out0[q]);
                        } else {
                            assert(g0.last().1.push((prop@, rows@[i as int].1@)).drop_last() == g0.last().1);
                        }
                    }
                }
            } else {
                let prefix_s = string_from_chars(prefix.as_slice());
                let mut props: Vec<(String, Vec<u8>)> = Vec::new();
                proof {
                    assert(props_view(props) =~= Seq::<(Seq<char>, Seq<u8>)>::empty());
                }
                add_prop(&mut props, prop_s, value);
                let ghost out0 = out@;
                out.push((prefix_s, props));
                cur_key = prefix;
                proof {
                    let g1 = group_runs(split_rows(rv.take(i + 1)));
                    assert(g1 == g0.push((prefix@, seq![(prop@, rows@[i as int].1@)])));
                    assert(seq![(prop@, rows@[i as int].1@)].drop_last() =~= Seq::<(Seq<char>, Seq<u8>)>::empty());
                    assert forall|q: int| 0 <= q < out@.len() implies {
                        &&& (#[trigger] out@[q]).0@ == g1[q].0
                        &&& unique_names(props_view(out@[q].1))
                        &&& props_map(props_view(out@[q].1)) == props_map(g1[q].1)
                    } by {
                        if q < n {
                            assert(out@[q] == out0[q]);
                        }
                    }
                }
            }
        } else {
            proof {
                assert(rsplit_once(key@, '/') is None);
                assert(split_rows(rv.take(i + 1)) == split_rows(rv.take(i as int)));
            }
        }
        i += 1;
    }
    proof {
        assert(rv.take(rows.len() as int) == rv);
    }
    out
}

/// `last_index_of` finds the last occurrence.
proof fn lemma_last_index_of(s: Seq<char>, c: char, j: int)
    requires
        0 <= j <= s.len(),
        forall|q: int| j <= q < s.len() ==> s[q] != c,
        j == 0 || s[j - 1] == c,
    ensures
        last_index_of(s, c) == if j == 0 {
            None::<nat>
        } else {
            Some((j - 1) as nat)
        },
    decreases s.len(),
{
    if s.len() > 0 && j < s.len() {
        assert forall|q: int| j <= q < s.drop_last().len() implies s.drop_last()[q] != c by {
            assert(s.drop_last()[q] == s[q]);
        }
        if j > 0 {
            assert(s.drop_last()[j - 1] == s[j - 1]);
        }
        lemma_last_index_of(s.drop_last(), c, j);
    }
}

/// Sets property `name` to `value` in a list without repeated names: replaces
/// the value of an equal name, or appends the pair.
fn add_prop(props: &mut Vec<(String, Vec<u8>)>, name: String, value: Vec<u8>)
    requires
        unique_names(props_view(*old(props))),
    ensures
        unique_names(props_view(*final(props))),
        props_map(props_view(*final(props))) == props_map(props_view(*old(props))).insert(name@, value@),
{
    let name_c = chars_of(name.as_str());
    assert(name_c@ == name@);
    let mut i: usize = 0;
    while i < props.len()
        invariant
            i <= props.len(),
            props@ == old(props)@,
            name_c@ == name@,
            unique_names(props_view(*old(props))),
            forall|q: int| 0 <= q < i ==> props@[q].0@ != name@,
        decreases props.len() - i,
    {
        let other = chars_of(props[i].0.as_str());
        assert(other@ == props@[i as int].0@);
        if chars_eq(other.as_slice(), name_c.as_slice()) {
            let ghost before = props_view(*props);
            assert(before[i as int] == row_view(props@[i as int]));
            props.set(i, (name, value));
            proof {
                lemma_props_map_replace(before, i as int, name@, value@);
                assert(props_view(*props) =~= before.update(i as int, (name@, value@)));
            }
            return;
        }
        i += 1;
    }
    let ghost before = props_view(*props);
    props.push((name, value));
    proof {
        assert(props_view(*props) =~= before.push((name@, value@)));
        assert forall|q: int| 0 <= q < before.len() implies before[q].0 != name@ by {
            assert(before[q] == row_view(old(props)@[q]));
        }
        assert(props_view(*props).drop_last() =~= before);
    }
}

/// Replacing the value of a name that occurs once changes the map accordingly.
proof fn lemma_props_map_replace(s: Seq<(Seq<char>, Seq<u8>)>, i: int, n: Seq<char>, v: Seq<u8>)
    requires
        unique_names(s),
        0 <= i < s.len(),
        s[i].0 == n,
    ensures
        unique_names(s.update(i, (n, v))),
        props_map(s.update(i, (n, v))) == props_map(s).insert(n, v),
    decreases s.len(),
{
    let t = s.update(i, (n, v));
    if i == s.len() - 1 {
        assert(t.drop_last() =~= s.drop_last());
        assert(props_map(t) =~= props_map(s).insert(n, v));
    } else {
        assert(t.drop_last() =~= s.drop_last().update(i, (n, v)));
        lemma_props_map_replace(s.drop_last(), i, n, v);
        assert(s.last().0 != n);
        assert(props_map(t) =~= props_map(s).insert(n, v));
    }
}

} // verus!
