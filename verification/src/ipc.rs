//! Requests and responses between the runtime and an application process:
//! the shapes of an HTTP request and response, which script entry an
//! invocation calls, and the header lists the application sees and answers.

use vstd::prelude::*;
use vstd::utf8::{decode_utf8, valid_utf8};
use crate::fontmatch::{lowercase_of, to_lowercase};
use crate::pubsub::utf8_text;
use crate::text::chars_of;

verus! {

/// An HTTP request as the application sees it. Header values are grouped by
/// header name.
#[derive(Debug, Clone)]
pub struct BlueboatRequest {
    pub method: String,
    pub uri: String,
    pub headers: Vec<(String, Vec<String>)>,
    pub body: Vec<u8>,
}

/// An HTTP response as the application gives it.
#[derive(Debug, Clone)]
pub struct BlueboatResponse {
    pub status: u16,
    pub headers: Vec<(String, Vec<String>)>,
}

/// What an application process is asked to do.
#[derive(Debug, Clone)]
pub enum BlueboatIpcReqV {
    /// Answer an HTTP request.
    Http(BlueboatRequest),
    /// Run a background task from its serialized arguments.
    Background(Vec<u8>),
    /// Authorize a server-sent-events subscription.
    SseAuth(BlueboatRequest),
}

/// A request to an application process, with its request id.
#[derive(Debug, Clone)]
pub struct BlueboatIpcReq {
    pub v: BlueboatIpcReqV,
    pub id: String,
}

/// The global script function that handles each kind of request.
pub open spec fn spec_entry_key(v: BlueboatIpcReqV) -> Seq<char> {
    match v {
        BlueboatIpcReqV::Http(_) => "__blueboat_app_entry"@,
        BlueboatIpcReqV::Background(_) => "__blueboat_app_background_entry"@,
        BlueboatIpcReqV::SseAuth(_) => "__blueboat_app_sse_auth_entry"@,
    }
}

/// The global script function that an invocation calls.
pub fn entry_key(v: &BlueboatIpcReqV) -> (res: &'static str)
    ensures
        res@ == spec_entry_key(*v),
{
    match v {
        BlueboatIpcReqV::Http(_) => "__blueboat_app_entry",
        BlueboatIpcReqV::Background(_) => "__blueboat_app_background_entry",
        BlueboatIpcReqV::SseAuth(_) => "__blueboat_app_sse_auth_entry",
    }
}

/// The pairs whose value is UTF-8, with the value as text, in order.
pub open spec fn text_pairs(pairs: Seq<(Seq<char>, Seq<u8>)>) -> Seq<(Seq<char>, Seq<char>)>
    decreases pairs.len(),
{
    if pairs.len() == 0 {
        Seq::empty()
    } else {
        let prev = text_pairs(pairs.drop_last());
        if valid_utf8(pairs.last().1) {
            prev.push((pairs.last().0, decode_utf8(pairs.last().1)))
        } else {
            prev
        }
    }
}

/// Consecutive pairs with the same name, grouped: each group has the name
/// and its values in order.
pub open spec fn group_consecutive(pairs: Seq<(Seq<char>, Seq<char>)>) -> Seq<(Seq<char>, Seq<Seq<char>>)>
    decreases pairs.len(),
{
    if pairs.len() == 0 {
        Seq::empty()
    } else {
        let prev = group_consecutive(pairs.drop_last());
        let (k, v) = pairs.last();
        if prev.len() > 0 && prev.last().0 == k {
            prev.update(prev.len() - 1, (k, prev.last().1.push(v)))
        } else {
            prev.push((k, seq![v]))
        }
    }
}

/// The view of a header list.
pub open spec fn header_list_view(h: Seq<(String, Vec<String>)>) -> Seq<(Seq<char>, Seq<Seq<char>>)> {
    h.map_values(|e: (String, Vec<String>)| (e.0@, e.1@.map_values(|s: String| s@)))
}

/// The view of raw header pairs.
pub open spec fn raw_pairs_view(p: Seq<(String, Vec<u8>)>) -> Seq<(Seq<char>, Seq<u8>)> {
    p.map_values(|e: (String, Vec<u8>)| (e.0@, e.1@))
}

/// Groups the headers of an HTTP message, given as (name, value bytes) pairs
/// in the order the message holds them: values that are not UTF-8 are
/// dropped, and consecutive values of one name form a group.
pub fn group_header_pairs(pairs: &Vec<(String, Vec<u8>)>) -> (res: Vec<(String, Vec<String>)>)
    ensures
        header_list_view(res@) == group_consecutive(text_pairs(raw_pairs_view(pairs@))),
{
    let ghost pv = raw_pairs_view(pairs@);
    let mut out: Vec<(String, Vec<String>)> = Vec::new();
    proof {
        assert(pv.take(0) =~= Seq::<(Seq<char>, Seq<u8>)>::empty());
        assert(header_list_view(out@) =~= Seq::<(Seq<char>, Seq<Seq<char>>)>::empty());
    }
    let mut i: usize = 0;
    while i < pairs.len()
        invariant
            i <= pairs.len(),
            pv == raw_pairs_view(pairs@),
            header_list_view(out@) == group_consecutive(text_pairs(pv.take(i as int))),
        decreases pairs.len() - i,
    {
        proof {
            assert(pv.take(i + 1).drop_last() =~= pv.take(i as int));
            assert(pv.take(i + 1).last() == (pairs@[i as int].0@, pairs@[i as int].1@));
        }
        let name = &pairs[i].0;
        match utf8_text(pairs[i].1.as_slice()) {
            None => {
                proof {
                    assert(text_pairs(pv.take(i + 1)) == text_pairs(pv.take(i as int)));
                }
            },
            Some(text) => {
                let ghost before = header_list_view(out@);
                let ghost tv = text@;
                proof {
                    assert(text_pairs(pv.take(i + 1)) == text_pairs(pv.take(i as int)).push((name@, tv)));
                    assert(text_pairs(pv.take(i + 1)).drop_last() =~= text_pairs(pv.take(i as int)));
                }
                let n = out.len();
                let same = n > 0 && crate::text::str_eq(out[n - 1].0.as_str(), name.as_str());
                if same {
                    let mut last = out.pop().unwrap();
                    let ghost lv = last.1@.map_values(|s: String| s@);
                    last.1.push(text);
                    proof {
                        assert(last.1@.map_values(|s: String| s@) =~= lv.push(tv));
                    }
                    out.push(last);
                    proof {
                        assert(header_list_view(out@) =~= before.update(before.len() - 1, (name@, before.last().1.push(tv))));
                    }
                } else {
                    let mut vals: Vec<String> = Vec::new();
                    vals.push(text);
                    proof {
                        assert(vals@.map_values(|s: String| s@) =~= seq![tv]);
                    }
                    out.push((name.clone(), vals));
                    proof {
                        assert(header_list_view(out@) =~= before.push((name@, seq![tv])));
                    }
                }
            },
        }
        i += 1;
    }
    proof {
        assert(pv.take(pairs@.len() as int) =~= pv);
    }
    out
}

/// Headers an application may not set itself start with this prefix.
pub open spec fn internal_prefix() -> Seq<char> {
    "x-blueboat-"@
}

/// The name of the response header that reports how long the application was
/// busy.
pub open spec fn busy_duration_header() -> Seq<char> {
    "x-blueboat-busy-duration"@
}

/// The headers an application answers with, as the runtime keeps them: names
/// lowercased, and those with the runtime's own prefix left out.
pub open spec fn kept_headers(h: Seq<(Seq<char>, Seq<Seq<char>>)>) -> Seq<(Seq<char>, Seq<Seq<char>>)>
    decreases h.len(),
{
    if h.len() == 0 {
        Seq::empty()
    } else {
        let prev = kept_headers(h.drop_last());
        let k = lowercase_of(h.last().0);
        if k.len() >= internal_prefix().len() && k.take(internal_prefix().len() as int) == internal_prefix() {
            prev
        } else {
            prev.push((k, h.last().1))
        }
    }
}

/// Whether text starts with the runtime's header prefix.
fn is_internal_header(name: &str) -> (res: bool)
    ensures
        res == (name@.len() >= internal_prefix().len() && name@.take(internal_prefix().len() as int)
            == internal_prefix()),
{
    let c = chars_of(name);
    let p = chars_of("x-blueboat-");
    proof {
        reveal_strlit("x-blueboat-");
    }
    if c.len() < p.len() {
        return false;
    }
    let mut i: usize = 0;
    while i < p.len()
        invariant
            i <= p@.len(),
            p@.len() <= c@.len(),
            c@ == name@,
            p@ == internal_prefix(),
            forall|j: int| 0 <= j < i ==> c@[j] == p@[j],
        decreases p.len() - i,
    {
        if c[i] != p[i] {
            proof {
                assert(c@.take(p@.len() as int)[i as int] != p@[i as int]);
            }
            return false;
        }
        i += 1;
    }
    proof {
        assert(c@.take(p@.len() as int) =~= p@);
    }
    true
}

/// The headers of a completed response: the application's headers with
/// lowercased names, without those of the runtime's prefix, followed by the
/// busy-duration header with the given text. Later entries of a name take
/// the place of earlier ones when the list is read as a map.
pub fn complete_headers(headers: Vec<(String, Vec<String>)>, busy_duration_text: String) -> (res: Vec<(String, Vec<String>)>)
    ensures
        header_list_view(res@) == kept_headers(header_list_view(headers@)).push(
            (busy_duration_header(), seq![busy_duration_text@]),
        ),
{
    let ghost hv = header_list_view(headers@);
    let mut out: Vec<(String, Vec<String>)> = Vec::new();
    proof {
        assert(hv.take(0) =~= Seq::<(Seq<char>, Seq<Seq<char>>)>::empty());
        assert(header_list_view(out@) =~= Seq::<(Seq<char>, Seq<Seq<char>>)>::empty());
    }
    let mut i: usize = 0;
    while i < headers.len()
        invariant
            i <= headers.len(),
            hv == header_list_view(headers@),
            header_list_view(out@) == kept_headers(hv.take(i as int)),
        decreases headers.len() - i,
    {
        proof {
            assert(hv.take(i + 1).drop_last() =~= hv.take(i as int));
            assert(hv.take(i + 1).last() == hv[i as int]);
        }
        let k = to_lowercase(headers[i].0.as_str());
        if !is_internal_header(k.as_str()) {
            let ghost before = header_list_view(out@);
            let v = headers[i].1.clone();
            proof {
                assert(v@.map_values(|s: String| s@) =~= headers@[i as int].1@.map_values(|s: String| s@));
            }
            let ghost kv = k@;
            out.push((k, v));
            proof {
                assert(header_list_view(out@) =~= before.push((kv, hv[i as int].1)));
            }
        }
        i += 1;
    }
    proof {
        assert(hv.take(headers@.len() as int) =~= hv);
    }
    let ghost before = header_list_view(out@);
    let mut vals: Vec<String> = Vec::new();
    let ghost bt = busy_duration_text@;
    vals.push(busy_duration_text);
    proof {
        assert(vals@.map_values(|s: String| s@) =~= seq![bt]);
    }
    let name = crate::text::string_from_chars(chars_of("x-blueboat-busy-duration").as_slice());
    proof {
        reveal_strlit("x-blueboat-busy-duration");
        assert(name@ == busy_duration_header());
    }
    out.push((name, vals));
    proof {
        assert(header_list_view(out@) =~= before.push((busy_duration_header(), seq![bt])));
    }
    out
}

/// The pairs that groups stand for, in order.
pub open spec fn flatten_groups(g: Seq<(Seq<char>, Seq<Seq<char>>)>) -> Seq<(Seq<char>, Seq<char>)>
    decreases g.len(),
{
    if g.len() == 0 {
        Seq::empty()
    } else {
        flatten_groups(g.drop_last()) + g.last().1.map_values(|v: Seq<char>| (g.last().0, v))
    }
}

/// Grouping header values loses nothing and merges as much as it can: the
/// groups, read back in order, give the pairs they were made of; no group is
/// empty; and neighbouring groups have different names.
pub proof fn law_grouping_keeps_pairs(pairs: Seq<(Seq<char>, Seq<char>)>)
    ensures
        flatten_groups(group_consecutive(pairs)) == pairs,
        forall|i: int| 0 <= i < group_consecutive(pairs).len() ==> (#[trigger] group_consecutive(pairs)[i]).1.len() > 0,
        forall|i: int|
            0 <= i < group_consecutive(pairs).len() - 1 ==> (#[trigger] group_consecutive(pairs)[i]).0 != group_consecutive(
                pairs,
            )[i + 1].0,
    decreases pairs.len(),
{
    if pairs.len() > 0 {
        let prev = group_consecutive(pairs.drop_last());
        law_grouping_keeps_pairs(pairs.drop_last());
        let (k, v) = pairs.last();
        let g = group_consecutive(pairs);
        if prev.len() > 0 && prev.last().0 == k {
            let merged = prev.last().1.push(v);
            assert(g == prev.update(prev.len() - 1, (k, merged)));
            assert(g.drop_last() =~= prev.drop_last());
            assert(merged.map_values(|x: Seq<char>| (k, x)) =~= prev.last().1.map_values(|x: Seq<char>| (k, x)).push(
                (k, v),
            ));
            assert(flatten_groups(g) =~= flatten_groups(prev).push((k, v)));
            assert(pairs =~= pairs.drop_last().push((k, v)));
            assert forall|i: int| 0 <= i < g.len() - 1 implies (#[trigger] g[i]).0 != g[i + 1].0 by {
                assert(g[i] == prev[i]);
                assert(g[i + 1].0 == prev[i + 1].0);
            }
        } else {
            assert(g == prev.push((k, seq![v])));
            assert(g.drop_last() =~= prev);
            assert(seq![v].map_values(|x: Seq<char>| (k, x)) =~= seq![(k, v)]);
            assert(flatten_groups(g) =~= flatten_groups(prev).push((k, v)));
            assert(pairs =~= pairs.drop_last().push((k, v)));
            assert forall|i: int| 0 <= i < g.len() - 1 implies (#[trigger] g[i]).0 != g[i + 1].0 by {
                if i < g.len() - 2 {
                    assert(g[i] == prev[i]);
                    assert(g[i + 1] == prev[i + 1]);
                }
            }
        }
    }
}

} // verus!
