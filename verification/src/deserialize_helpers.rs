//! Reading the multiaddresses that the node's replies give as strings.
use vstd::prelude::*;

use crate::addr::{multiaddr_from_str, parse_multiaddr, MultiAddr, Segment};

verus! {

/// The texts of a list of strings.
pub open spec fn string_views(v: Seq<String>) -> Seq<Seq<char>> {
    v.map_values(|s: String| s@)
}

/// The segments of a list of multiaddresses.
pub open spec fn addr_views(v: Seq<MultiAddr>) -> Seq<Seq<Segment>> {
    v.map_values(|m: MultiAddr| m@)
}

/// The parse results of a list of multiaddresses, by their views.
pub open spec fn result_views(v: Seq<Result<MultiAddr, String>>) -> Seq<Result<Seq<Segment>, Seq<char>>> {
    v.map_values(|r: Result<MultiAddr, String>| match r {
        Ok(m) => Ok(m@),
        Err(e) => Err(e@),
    })
}

/// All the values of `results` in order when every one is `Ok`; else the
/// first error.
pub open spec fn collect_spec(results: Seq<Result<Seq<Segment>, Seq<char>>>) -> Result<Seq<Seq<Segment>>, Seq<char>>
    decreases results.len(),
{
    if results.len() == 0 {
        Ok(seq![])
    } else {
        match collect_spec(results.drop_last()) {
            Err(e) => Err(e),
            Ok(done) => match results.last() {
                Ok(m) => Ok(done.push(m)),
                Err(e) => Err(e),
            },
        }
    }
}

/// Every text parsed as a multiaddress: all the addresses in order, or the
/// error of the first text that does not parse.
pub open spec fn parse_all(texts: Seq<Seq<char>>) -> Result<Seq<Seq<Segment>>, Seq<char>> {
    collect_spec(texts.map_values(|t: Seq<char>| multiaddr_from_str(t)))
}

/// `collect_spec` gives `Ok` exactly when every result is `Ok`, then with the
/// values in order; otherwise it gives the error of the first result that is
/// an error.
pub proof fn lemma_collect_spec(results: Seq<Result<Seq<Segment>, Seq<char>>>)
    ensures
        collect_spec(results) is Ok <==> forall|i: int| 0 <= i < results.len() ==> results[i] is Ok,
        collect_spec(results) matches Ok(v) ==> v.len() == results.len() && forall|i: int|
            0 <= i < results.len() ==> results[i] == Ok::<Seq<Segment>, Seq<char>>(v[i]),
        collect_spec(results) matches Err(e) ==> exists|k: int|
            0 <= k < results.len() && results[k] == Err::<Seq<Segment>, Seq<char>>(e) && forall|i: int|
                0 <= i < k ==> results[i] is Ok,
    decreases results.len(),
{
    if results.len() > 0 {
        let prev = results.drop_last();
        lemma_collect_spec(prev);
        assert forall|i: int| 0 <= i < prev.len() implies prev[i] == results[i] by {}
        if collect_spec(prev) is Err {
            let e = collect_spec(prev)->Err_0;
            let k = choose|k: int|
                0 <= k < prev.len() && prev[k] == Err::<Seq<Segment>, Seq<char>>(e) && forall|i: int|
                    0 <= i < k ==> prev[i] is Ok;
            assert(results[k] == prev[k]);
        } else {
            let last = results.len() - 1;
            if results[last] is Err {
                assert(forall|i: int| 0 <= i < last ==> results[i] is Ok);
            }
        }
    }
}

/// An error among the first `k` results is the error of all of them.
proof fn lemma_collect_prefix_err(results: Seq<Result<Seq<Segment>, Seq<char>>>, k: int)
    requires
        0 <= k <= results.len(),
        collect_spec(results.subrange(0, k)) is Err,
    ensures
        collect_spec(results) == collect_spec(results.subrange(0, k)),
    decreases results.len(),
{
    if k < results.len() {
        let prev = results.drop_last();
        assert(prev.subrange(0, k) =~= results.subrange(0, k));
        lemma_collect_prefix_err(prev, k);
    } else {
        assert(results.subrange(0, k) =~= results);
    }
}

/// Parses a multiaddress with the multiaddress library.
pub fn from_str(s: &str) -> (res: Result<MultiAddr, String>)
    ensures
        match res {
            Ok(m) => multiaddr_from_str(s@) == Ok::<Seq<Segment>, Seq<char>>(m@),
            Err(e) => multiaddr_from_str(s@) == Err::<Seq<Segment>, Seq<char>>(e@),
        },
{
    parse_multiaddr(s)
}

/// All the addresses of `results` in order when every one is `Ok`; else the
/// first error.
pub fn collect_results(results: Vec<Result<MultiAddr, String>>) -> (res: Result<Vec<MultiAddr>, String>)
    ensures
        match res {
            Ok(v) => collect_spec(result_views(results@)) == Ok::<Seq<Seq<Segment>>, Seq<char>>(addr_views(v@)),
            Err(e) => collect_spec(result_views(results@)) == Err::<Seq<Seq<Segment>>, Seq<char>>(e@),
        },
{
    let ghost views = result_views(results@);
    let mut out: Vec<MultiAddr> = Vec::new();
    let ghost all = results@;
    let mut rest = results;
    let mut i: usize = 0;
    let n = rest.len();
    assert(views.subrange(0, 0) =~= Seq::<Result<Seq<Segment>, Seq<char>>>::empty());
    assert(addr_views(out@) =~= Seq::<Seq<Segment>>::empty());
    while i < n
        invariant
            n == all.len(),
            all == results@,
            i <= n,
            rest@ == all.subrange(i as int, n as int),
            views == result_views(all),
            collect_spec(views.subrange(0, i as int)) == Ok::<Seq<Seq<Segment>>, Seq<char>>(addr_views(out@)),
        decreases n - i,
    {
        let r = rest.remove(0);
        assert(r == all[i as int]);
        assert(rest@ =~= all.subrange(i + 1, n as int));
        proof {
            let next = views.subrange(0, i + 1);
            assert(next.drop_last() =~= views.subrange(0, i as int));
            assert(next.last() == views[i as int]);
        }
        let ghost old_out = out@;
        match r {
            Ok(m) => {
                assert(views[i as int] == Ok::<Seq<Segment>, Seq<char>>(m@));
                out.push(m);
                assert(addr_views(out@) =~= addr_views(old_out).push(m@));
            },
            Err(e) => {
                proof {
                    assert(views[i as int] == Err::<Seq<Segment>, Seq<char>>(e@));
                    lemma_collect_prefix_err(views, i + 1);
                }
                return Err(e);
            },
        }
        i = i + 1;
    }
    assert(views.subrange(0, i as int) =~= views);
    Ok(out)
}

/// Parses every string as a multiaddress: all the addresses in order, or the
/// error of the first string that does not parse.
pub fn vec_from_strs(strs: &Vec<String>) -> (res: Result<Vec<MultiAddr>, String>)
    ensures
        match res {
            Ok(v) => parse_all(string_views(strs@)) == Ok::<Seq<Seq<Segment>>, Seq<char>>(addr_views(v@)),
            Err(e) => parse_all(string_views(strs@)) == Err::<Seq<Seq<Segment>>, Seq<char>>(e@),
        },
        res matches Ok(v) ==> v@.len() == strs@.len() && forall|i: int|
            0 <= i < strs@.len() ==> multiaddr_from_str(strs@[i]@) == Ok::<Seq<Segment>, Seq<char>>(v@[i]@),
        res is Ok <==> forall|i: int| 0 <= i < strs@.len() ==> multiaddr_from_str(strs@[i]@) is Ok,
{
    proof { lemma_parse_all(string_views(strs@)); }
    let mut results: Vec<Result<MultiAddr, String>> = Vec::new();
    let mut i: usize = 0;
    while i < strs.len()
        invariant
            i <= strs.len(),
            result_views(results@) =~= string_views(strs@).subrange(0, i as int).map_values(
                |t: Seq<char>| multiaddr_from_str(t),
            ),
        decreases strs.len() - i,
    {
        let r = from_str(strs[i].as_str());
        let ghost old_results = results@;
        let ghost rv = result_views(seq![r])[0];
        assert(rv == multiaddr_from_str(strs@[i as int]@));
        results.push(r);
        proof {
            let t = string_views(strs@).subrange(0, i + 1);
            assert(t.drop_last() =~= string_views(strs@).subrange(0, i as int));
            assert(result_views(results@) =~= result_views(old_results).push(rv));
            assert(t.map_values(|t: Seq<char>| multiaddr_from_str(t)) =~= t.drop_last().map_values(
                |t: Seq<char>| multiaddr_from_str(t),
            ).push(rv));
        }
        i = i + 1;
    }
    assert(string_views(strs@).subrange(0, i as int) =~= string_views(strs@));
    let res = collect_results(results);
    proof {
        if res is Ok {
            let v = res->Ok_0;
            assert(addr_views(v@).len() == v@.len());
            assert forall|i: int| 0 <= i < strs@.len() implies multiaddr_from_str(strs@[i]@)
                == Ok::<Seq<Segment>, Seq<char>>(v@[i]@) by {
                assert(string_views(strs@)[i] == strs@[i]@);
                assert(addr_views(v@)[i] == v@[i]@);
            }
        }
        assert forall|i: int| 0 <= i < strs@.len() implies string_views(strs@)[i] == strs@[i]@ by {}
    }
    res
}

/// The key texts and value texts of a list of map entries.
pub open spec fn entry_views(v: Seq<(String, Vec<String>)>) -> Seq<(Seq<char>, Seq<Seq<char>>)> {
    v.map_values(|p: (String, Vec<String>)| (p.0@, string_views(p.1@)))
}

/// The key texts and address segments of a list of map entries.
pub open spec fn peer_views(v: Seq<(String, Vec<MultiAddr>)>) -> Seq<(Seq<char>, Seq<Seq<Segment>>)> {
    v.map_values(|p: (String, Vec<MultiAddr>)| (p.0@, addr_views(p.1@)))
}

/// No two entries have the same key.
pub open spec fn keys_distinct<V>(entries: Seq<(Seq<char>, V)>) -> bool {
    forall|i: int, j: int| 0 <= i < j < entries.len() ==> entries[i].0 != entries[j].0
}

/// Every entry with its strings parsed as multiaddresses, keys and order
/// kept; or the error of the first string that does not parse, in the first
/// entry that has one.
pub open spec fn parse_entries(entries: Seq<(Seq<char>, Seq<Seq<char>>)>) -> Result<
    Seq<(Seq<char>, Seq<Seq<Segment>>)>,
    Seq<char>,
>
    decreases entries.len(),
{
    if entries.len() == 0 {
        Ok(seq![])
    } else {
        match parse_entries(entries.drop_last()) {
            Err(e) => Err(e),
            Ok(done) => match parse_all(entries.last().1) {
                Ok(addrs) => Ok(done.push((entries.last().0, addrs))),
                Err(e) => Err(e),
            },
        }
    }
}

/// An error among the first `k` entries is the error of all of them.
proof fn lemma_entries_prefix_err(entries: Seq<(Seq<char>, Seq<Seq<char>>)>, k: int)
    requires
        0 <= k <= entries.len(),
        parse_entries(entries.subrange(0, k)) is Err,
    ensures
        parse_entries(entries) == parse_entries(entries.subrange(0, k)),
    decreases entries.len(),
{
    if k < entries.len() {
        let prev = entries.drop_last();
        assert(prev.subrange(0, k) =~= entries.subrange(0, k));
        lemma_entries_prefix_err(prev, k);
    } else {
        assert(entries.subrange(0, k) =~= entries);
    }
}

/// Parses the strings of every entry as multiaddresses, keeping the keys and
/// their order: the parsed entries, or the error of the first string that
/// does not parse. Two entries with one key are not accepted.
pub fn map_of_vec_from_strs(entries: &Vec<(String, Vec<String>)>) -> (res: Result<Vec<(String, Vec<MultiAddr>)>, String>)
    requires
        keys_distinct(entry_views(entries@)),
    ensures
        match res {
            Ok(v) => parse_entries(entry_views(entries@)) == Ok::<Seq<(Seq<char>, Seq<Seq<Segment>>)>, Seq<char>>(peer_views(v@)),
            Err(e) => parse_entries(entry_views(entries@)) == Err::<Seq<(Seq<char>, Seq<Seq<Segment>>)>, Seq<char>>(e@),
        },
        res matches Ok(v) ==> keys_distinct(peer_views(v@)),
        res matches Ok(v) ==> v@.len() == entries@.len() && forall|i: int|
            0 <= i < entries@.len() ==> v@[i].0@ == entries@[i].0@ && parse_all(string_views(entries@[i].1@))
                == Ok::<Seq<Seq<Segment>>, Seq<char>>(addr_views(v@[i].1@)),
{
    let ghost views = entry_views(entries@);
    let mut out: Vec<(String, Vec<MultiAddr>)> = Vec::new();
    let mut i: usize = 0;
    assert(views.subrange(0, 0) =~= Seq::<(Seq<char>, Seq<Seq<char>>)>::empty());
    assert(peer_views(out@) =~= Seq::<(Seq<char>, Seq<Seq<Segment>>)>::empty());
    while i < entries.len()
        invariant
            i <= entries.len(),
            views == entry_views(entries@),
            parse_entries(views.subrange(0, i as int)) == Ok::<Seq<(Seq<char>, Seq<Seq<Segment>>)>, Seq<char>>(peer_views(out@)),
        decreases entries.len() - i,
    {
        proof {
            let next_views = views.subrange(0, i + 1);
            assert(next_views.drop_last() =~= views.subrange(0, i as int));
            assert(next_views.last() == views[i as int]);
        }
        let ghost old_out = out@;
        match vec_from_strs(&entries[i].1) {
            Ok(addrs) => {
                let ghost av = addr_views(addrs@);
                let key = entries[i].0.clone();
                out.push((key, addrs));
                assert(peer_views(out@) =~= peer_views(old_out).push((views[i as int].0, av)));
            },
            Err(e) => {
                proof { lemma_entries_prefix_err(views, i + 1); }
                return Err(e);
            },
        }
        i = i + 1;
    }
    assert(views.subrange(0, i as int) =~= views);
    proof {
        lemma_parse_entries_keys(views);
        assert forall|i: int| 0 <= i < entries@.len() implies out@[i].0@ == entries@[i].0@ && parse_all(
            string_views(entries@[i].1@),
        ) == Ok::<Seq<Seq<Segment>>, Seq<char>>(addr_views(out@[i].1@)) by {
            assert(views[i] == (entries@[i].0@, string_views(entries@[i].1@)));
            assert(peer_views(out@)[i] == (out@[i].0@, addr_views(out@[i].1@)));
        }
    }
    Ok(out)
}

/// Parsing the entries keeps their keys in order, and gives each peer the
/// parse of its own strings: it succeeds exactly when every entry's strings
/// all parse, and then entry `i` of the result is the key of entry `i` with
/// the addresses of entry `i`.
pub proof fn lemma_parse_entries_keys(entries: Seq<(Seq<char>, Seq<Seq<char>>)>)
    ensures
        parse_entries(entries) matches Ok(v) ==> v.len() == entries.len() && forall|i: int|
            0 <= i < entries.len() ==> v[i].0 == entries[i].0,
        parse_entries(entries) matches Ok(v) ==> forall|i: int|
            0 <= i < entries.len() ==> parse_all(entries[i].1) == Ok::<Seq<Seq<Segment>>, Seq<char>>(v[i].1),
        parse_entries(entries) is Ok <==> forall|i: int| 0 <= i < entries.len() ==> parse_all(entries[i].1) is Ok,
    decreases entries.len(),
{
    if entries.len() > 0 {
        let prev = entries.drop_last();
        lemma_parse_entries_keys(prev);
        assert forall|i: int| 0 <= i < prev.len() implies prev[i] == entries[i] by {}
        if parse_entries(prev) is Ok && parse_all(entries.last().1) is Err {
            assert(!(forall|i: int| 0 <= i < entries.len() ==> parse_all(entries[i].1) is Ok)) by {
                assert(parse_all(entries[entries.len() - 1].1) is Err);
            }
        }
        if parse_entries(prev) is Err {
            let k = choose|k: int| 0 <= k < prev.len() && !(parse_all(prev[k].1) is Ok);
            assert(parse_all(entries[k].1) is Err);
        }
    }
}

/// Parsing a list of strings as multiaddresses succeeds exactly when every
/// string parses, and then gives, in order, the address of each string; when
/// it fails, its error is that of the first string that does not parse.
pub proof fn lemma_parse_all(texts: Seq<Seq<char>>)
    ensures
        parse_all(texts) is Ok <==> forall|i: int| 0 <= i < texts.len() ==> multiaddr_from_str(texts[i]) is Ok,
        parse_all(texts) matches Ok(v) ==> v.len() == texts.len() && forall|i: int|
            0 <= i < texts.len() ==> multiaddr_from_str(texts[i]) == Ok::<Seq<Segment>, Seq<char>>(v[i]),
        parse_all(texts) matches Err(e) ==> exists|k: int|
            0 <= k < texts.len() && multiaddr_from_str(texts[k]) == Err::<Seq<Segment>, Seq<char>>(e)
                && forall|i: int| 0 <= i < k ==> multiaddr_from_str(texts[i]) is Ok,
{
    let results = texts.map_values(|t: Seq<char>| multiaddr_from_str(t));
    lemma_collect_spec(results);
    assert(parse_all(texts) == collect_spec(results));
    assert forall|i: int| 0 <= i < texts.len() implies results[i] == multiaddr_from_str(texts[i]) by {}
    if parse_all(texts) is Ok {
        let v = parse_all(texts)->Ok_0;
        assert forall|i: int| 0 <= i < texts.len() implies multiaddr_from_str(texts[i])
            == Ok::<Seq<Segment>, Seq<char>>(v[i]) by {
            assert(results[i] == Ok::<Seq<Segment>, Seq<char>>(v[i]));
        }
    } else {
        let e = parse_all(texts)->Err_0;
        let k = choose|k: int|
            0 <= k < results.len() && results[k] == Err::<Seq<Segment>, Seq<char>>(e) && forall|i: int|
                0 <= i < k ==> results[i] is Ok;
        assert(multiaddr_from_str(texts[k]) is Err);
        assert forall|i: int| 0 <= i < k implies multiaddr_from_str(texts[i]) is Ok by {
            assert(results[i] is Ok);
        }
    }
}

} // verus!
