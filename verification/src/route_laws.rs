//! What a compiled route extracts, stated over the template itself.

use crate::request::HttpMethod;
use crate::router::{
    captured, entry_match, first_match, has_key, is_param, lemma_first_match, name_at, names_of,
    normalize, normalized, param_name, param_names, pattern_of, pattern_segments, placeholder,
    placeholder_count, registered, route_match, segments_match, slash, template_segments,
    RouteEntry,
};
use crate::text::{lemma_split_join, lemma_split_pieces, split};
use crate::text_map::{lemma_map_of_distinct, map_of};
use vstd::prelude::*;

verus! {

/// Whether a path has the shape of a template: as many segments, and the
/// same segment wherever the template holds a literal one.
pub open spec fn shape_match(template: Seq<Seq<char>>, path: Seq<Seq<char>>) -> bool {
    &&& template.len() == path.len()
    &&& forall|i: int|
        0 <= i < template.len() ==> is_param(#[trigger] template[i]) || template[i] == path[i]
}

/// The parameters of a template with the path segments at their positions,
/// from left to right.
pub open spec fn bound(template: Seq<Seq<char>>, path: Seq<Seq<char>>) -> Seq<
    (Seq<char>, Seq<char>),
>
    decreases template.len(),
{
    if template.len() == 0 {
        Seq::empty()
    } else if is_param(template.last()) {
        bound(template.drop_last(), path.drop_last()).push(
            (param_name(template.last()), path.last()),
        )
    } else {
        bound(template.drop_last(), path.drop_last())
    }
}

/// What a template extracts from a path: `None` if the path has not the
/// shape of the template, else each parameter name with the path segment at
/// the parameter's position. Of two parameters with the same name the later
/// one wins.
pub open spec fn template_match(template: Seq<char>, path: Seq<char>) -> Option<
    Map<Seq<char>, Seq<char>>,
> {
    let ts = template_segments(template);
    let rs = split(path, slash());
    if shape_match(ts, rs) {
        Some(map_of(bound(ts, rs)))
    } else {
        None
    }
}

/// No two names are the same.
pub open spec fn distinct(names: Seq<Seq<char>>) -> bool {
    forall|i: int, j: int| 0 <= i < j < names.len() ==> names[i] != names[j]
}

/// The names of a prefix of the segments are a prefix of the names.
pub proof fn lemma_names_prefix(segments: Seq<Seq<char>>, k: int)
    requires
        0 <= k <= segments.len(),
    ensures
        names_of(segments.take(k)).len() <= names_of(segments).len(),
        forall|j: int|
            0 <= j < names_of(segments.take(k)).len() ==> names_of(segments)[j] == names_of(
                segments.take(k),
            )[j],
    decreases segments.len() - k,
{
    if k < segments.len() {
        lemma_names_prefix(segments, k + 1);
        assert(segments.take(k + 1).drop_last() =~= segments.take(k));
    } else {
        assert(segments.take(k) =~= segments);
    }
}

/// The bound parameters carry the template's names, in template order, and
/// the normalized pattern has one placeholder for each.
pub proof fn lemma_bound_names(template: Seq<Seq<char>>, path: Seq<Seq<char>>)
    ensures
        bound(template, path).len() == names_of(template).len(),
        placeholder_count(normalized(template)) == names_of(template).len(),
        forall|j: int|
            0 <= j < names_of(template).len() ==> (#[trigger] bound(template, path)[j]).0
                == names_of(template)[j],
    decreases template.len(),
{
    if template.len() > 0 {
        lemma_bound_names(template.drop_last(), path.drop_last());
        assert(normalized(template).drop_last() =~= normalized(template.drop_last()));
        assert(normalized(template).last() == normalize(template.last()));
        lemma_placeholder(template.last());
    }
}

/// A normalized segment is the placeholder exactly where the template's
/// segment is a parameter, and the placeholder holds no `/`.
pub proof fn lemma_placeholder(segment: Seq<char>)
    ensures
        normalize(segment) == placeholder() <==> is_param(segment),
        forall|j: int| 0 <= j < placeholder().len() ==> placeholder()[j] != '/',
{
    assert(is_param(placeholder()));
}

/// The segments of a normalized pattern are the normalized segments of the
/// template.
pub proof fn lemma_pattern_segments(template: Seq<char>)
    ensures
        split(pattern_of(template), slash()) == pattern_segments(template),
{
    let ts = template_segments(template);
    let ps = pattern_segments(template);
    lemma_split_pieces(template, '/');
    assert forall|i: int, j: int| 0 <= i < ps.len() && 0 <= j < ps[i].len() implies ps[i][j]
        != '/' by {
        lemma_placeholder(ts[i]);
        if !is_param(ts[i]) {
            assert(ps[i] == ts[i]);
        }
    }
    lemma_split_join(ps, '/');
}

/// Up to any position, the placeholders of the normalized pattern capture
/// what the parameters of the template are bound to.
pub proof fn lemma_captured_bound(template: Seq<Seq<char>>, path: Seq<Seq<char>>, k: int)
    requires
        0 <= k <= template.len(),
        template.len() == path.len(),
    ensures
        captured(normalized(template).take(k), path.take(k), names_of(template)) == bound(
            template.take(k),
            path.take(k),
        ),
    decreases k,
{
    let names = names_of(template);
    let ps = normalized(template);
    if k > 0 {
        lemma_captured_bound(template, path, k - 1);
        assert(ps.take(k).drop_last() =~= ps.take(k - 1));
        assert(path.take(k).drop_last() =~= path.take(k - 1));
        assert(template.take(k).drop_last() =~= template.take(k - 1));
        assert(ps.take(k).last() == normalize(template[k - 1]));
        assert(template.take(k).last() == template[k - 1]);
        assert(path.take(k).last() == path[k - 1]);
        lemma_placeholder(template[k - 1]);
        if is_param(template[k - 1]) {
            let front = bound(template.take(k - 1), path.take(k - 1));
            lemma_bound_names(template.take(k - 1), path.take(k - 1));
            lemma_bound_names(template.take(k), path.take(k));
            lemma_names_prefix(template, k);
            assert(names_of(template.take(k)) == names_of(template.take(k - 1)).push(
                param_name(template[k - 1]),
            ));
            assert(names_of(template.take(k))[front.len() as int] == param_name(template[k - 1]));
            assert(name_at(names, front.len() as int) == param_name(template[k - 1]));
        }
    }
}

/// Compiling a template keeps its meaning: the normalized pattern with the
/// parameter names extracts from every path what the template extracts, and
/// holds one placeholder for each name.
pub proof fn lemma_compile(template: Seq<char>, path: Seq<char>)
    ensures
        route_match(pattern_of(template), param_names(template), path) == template_match(
            template,
            path,
        ),
        placeholder_count(split(pattern_of(template), slash())) == param_names(template).len(),
{
    let ts = template_segments(template);
    let ps = pattern_segments(template);
    let rs = split(path, slash());
    lemma_pattern_segments(template);
    lemma_bound_names(ts, rs);
    assert(segments_match(ps, rs) == shape_match(ts, rs)) by {
        if ps.len() == rs.len() {
            assert forall|i: int| 0 <= i < ts.len() implies ((#[trigger] ps[i]) == placeholder()
                || ps[i] == rs[i]) == (is_param(ts[i]) || ts[i] == rs[i]) by {
                lemma_placeholder(ts[i]);
            }
            if segments_match(ps, rs) {
                assert forall|i: int| 0 <= i < ts.len() implies is_param(#[trigger] ts[i]) || ts[i]
                    == rs[i] by {
                    assert(ps[i] == placeholder() || ps[i] == rs[i]);
                }
            }
            if shape_match(ts, rs) {
                assert forall|i: int| 0 <= i < ps.len() implies #[trigger] ps[i] == placeholder()
                    || ps[i] == rs[i] by {
                    assert(is_param(ts[i]) || ts[i] == rs[i]);
                }
            }
        }
    }
    if shape_match(ts, rs) {
        lemma_captured_bound(ts, rs, ts.len() as int);
        assert(ps.take(ts.len() as int) =~= ps);
        assert(ts.take(ts.len() as int) =~= ts);
        assert(rs.take(ts.len() as int) =~= rs);
    }
}

/// A path with the shape of a template yields one parameter for each
/// parameter segment, bound in template order: the `j`-th name maps to the
/// path segment at the position of the `j`-th parameter segment. This holds
/// where no two parameters of the template share a name.
pub proof fn lemma_params_in_order(template: Seq<char>, path: Seq<char>)
    requires
        shape_match(template_segments(template), split(path, slash())),
        distinct(param_names(template)),
    ensures
        ({
            let names = param_names(template);
            let pairs = bound(template_segments(template), split(path, slash()));
            let params = route_match(pattern_of(template), names, path);
            &&& params is Some
            &&& params->0.dom().finite()
            &&& params->0.dom().len() == names.len()
            &&& pairs.len() == names.len()
            &&& forall|j: int|
                0 <= j < names.len() ==> (#[trigger] pairs[j]).0 == names[j]
                    && params->0.contains_key(names[j]) && params->0[names[j]] == pairs[j].1
        }),
{
    let ts = template_segments(template);
    let rs = split(path, slash());
    let names = param_names(template);
    let pairs = bound(ts, rs);
    lemma_compile(template, path);
    lemma_bound_names(ts, rs);
    assert forall|i: int, j: int| 0 <= i < j < pairs.len() implies (#[trigger] pairs[i]).0 != (
    #[trigger] pairs[j]).0 by {
        assert(names[i] != names[j]);
    }
    lemma_map_of_distinct(pairs);
}

/// Once a handler is registered for a method and a template, every path
/// with the shape of the template finds a route under that method. Where no
/// route answered the path before, the route found is the new one, with the
/// registered handler.
pub proof fn lemma_registered_route_answers<H>(
    before: Seq<RouteEntry<H>>,
    after: Seq<RouteEntry<H>>,
    method: HttpMethod,
    template: Seq<char>,
    handler: H,
    path: Seq<char>,
)
    requires
        registered(before, after, method, template, handler),
        shape_match(template_segments(template), split(path, slash())),
    ensures
        first_match(after, method, path) is Some,
        first_match(before, method, path) is None ==> after[first_match(
            after,
            method,
            path,
        )->0].handler == handler,
{
    let pattern = pattern_of(template);
    lemma_compile(template, path);
    lemma_first_match(before, method, path);
    lemma_first_match(after, method, path);
    if exists|i: int| 0 <= i < before.len() && has_key(#[trigger] before[i], method, pattern) {
        let i = choose|i: int|
            0 <= i < before.len() && has_key(#[trigger] before[i], method, pattern);
        assert(after[i].route == before[i].route);
        assert(entry_match(after[i], method, path) is Some);
        assert(entry_match(before[i], method, path) is Some);
    } else {
        let last = after.len() - 1;
        assert(entry_match(after[last], method, path) is Some);
        assert forall|j: int| 0 <= j < last implies after[j] == before[j] by {
            assert(after.drop_last()[j] == after[j]);
        }
    }
}

} // verus!
