//! Parsing of query strings and of route patterns.
use vstd::prelude::*;
use crate::kv::{pairs_map, KeyValues, Pair};
use crate::router::{parts_of, Part, Segment};
use crate::text::{
    keep_non_empty, non_empty, split, split_once, split_once_text, split_text, substring, views,
};

verus! {

/// The `key=value` pairs of the pieces of a query string; a piece without `=`
/// gives no pair.
pub open spec fn query_pairs(pieces: Seq<Seq<char>>) -> Seq<Pair>
    decreases pieces.len(),
{
    if pieces.len() == 0 {
        Seq::empty()
    } else {
        let rest = query_pairs(pieces.drop_last());
        match split_once(pieces.last(), "="@) {
            Some(kv) => rest.push(kv),
            None => rest,
        }
    }
}

/// The mapping a query string denotes: `&`-separated `key=value` pairs, the last
/// value of a repeated key winning; pieces without `=` are dropped.
pub open spec fn query_map(query: Seq<char>) -> Map<Seq<char>, Seq<char>> {
    pairs_map(query_pairs(split(query, Some('&'))))
}

/// The non-empty `/`-separated components of a path.
pub open spec fn path_parts(path: Seq<char>) -> Seq<Seq<char>> {
    non_empty(split(path, Some('/')))
}

/// A pattern component: `:name` is a parameter, anything else a literal.
pub open spec fn part_of(p: Seq<char>) -> Part {
    if p.len() > 0 && p[0] == ':' {
        Part::Param(p.drop_first())
    } else {
        Part::Literal(p)
    }
}

/// The segments of a route pattern.
pub open spec fn pattern_of(path: Seq<char>) -> Seq<Part> {
    path_parts(path).map_values(|p: Seq<char>| part_of(p))
}

/// The query parameters of a query string.
pub fn parse_query(query: &str) -> (r: KeyValues)
    ensures
        r@ == query_map(query@),
{
    let pieces = split_text(query, Some('&'));
    let ghost ps = views(pieces@);
    let mut map = KeyValues::new();
    let mut i: usize = 0;
    assert(ps.subrange(0, 0) =~= Seq::<Seq<char>>::empty());
    while i < pieces.len()
        invariant
            i <= pieces@.len(),
            ps == views(pieces@),
            map@ == pairs_map(query_pairs(ps.subrange(0, i as int))),
        decreases pieces@.len() - i,
    {
        assert(ps.subrange(0, i + 1).drop_last() =~= ps.subrange(0, i as int));
        assert(ps.subrange(0, i + 1).last() == pieces@[i as int]@);
        let ghost before = query_pairs(ps.subrange(0, i as int));
        match split_once_text(pieces[i].as_str(), "=") {
            Some((k, v)) => {
                let ghost kv = (k@, v@);
                assert(query_pairs(ps.subrange(0, i + 1)) == before.push(kv));
                assert(before.push(kv).drop_last() =~= before);
                map.insert(k, v);
            },
            None => {
                assert(query_pairs(ps.subrange(0, i + 1)) == before);
            },
        }
        i += 1;
    }
    assert(ps.subrange(0, i as int) =~= ps);
    map
}

/// The segments of a route pattern: empty components are dropped, and a
/// component that starts with `:` names a parameter.
pub fn parse_path_segments(path: &str) -> (r: Vec<Segment>)
    ensures
        parts_of(r@) == pattern_of(path@),
{
    let parts = keep_non_empty(split_text(path, Some('/')));
    let ghost ps = views(parts@);
    let mut segs: Vec<Segment> = Vec::new();
    let mut i: usize = 0;
    while i < parts.len()
        invariant
            i <= parts@.len(),
            ps == views(parts@),
            ps == path_parts(path@),
            segs@.len() == i,
            forall|j: int| 0 <= j < i ==> #[trigger] segs@[j]@ == part_of(ps[j]),
        decreases parts@.len() - i,
    {
        let part = parts[i].as_str();
        let n = part.unicode_len();
        if n > 0 && part.get_char(0) == ':' {
            segs.push(Segment::Dynamic(substring(part, 1, n)));
            assert(part@.subrange(1, n as int) =~= part@.drop_first());
        } else {
            segs.push(Segment::Static(substring(part, 0, n)));
            assert(part@.subrange(0, n as int) =~= part@);
        }
        i += 1;
    }
    assert(parts_of(segs@) =~= pattern_of(path@));
    segs
}

} // verus!
