//! The filter that derives the list shown in the command pane.

use crate::app::AppState;
use crate::app::NavState;
use crate::config::lookup;
use crate::config::Catalog;
use crate::config::Config;
use crate::config::Group;
use crate::config::GroupModel;
use crate::config::Text;
use crate::text::ascending_within;
use crate::text::contains_bytes;
use crate::text::lemma_scan_ascends;
use crate::text::lemma_encoded_occurrence;
use crate::text::lemma_scan_finds_occurrences;
use crate::text::lowercase;
use crate::text::lower_bytes;
use crate::text::match_ranges;
use crate::text::occurs;
use crate::text::ranges_of;
use crate::text::scan_from;
use vstd::prelude::*;
use vstd::string::StringSliceAdditionalSpecFns;
use vstd::utf8::encode_utf8;
use vstd::utf8::encode_utf8_first_scalar;
use vstd::utf8::encode_utf8_valid_utf8;
use vstd::utf8::is_char_boundary;
use vstd::utf8::is_char_boundary_start_end_of_seq;
use vstd::utf8::valid_utf8;

verus! {

/// One line of the command pane: group name and command name.
pub type Entry = (Text, Text);

/// A command name matches a query when its lowercase form contains the
/// lowercase form of the query. The empty query matches every name.
pub open spec fn name_matches(name: Text, query: Text) -> bool {
    query.len() == 0 || occurs(lowercase(name), lowercase(query))
}

/// The test that search mode applies to each entry for the query `query`.
pub open spec fn matcher(query: Text) -> spec_fn(Entry) -> bool {
    |e: Entry| name_matches(e.1, query)
}

/// The commands of one group, each paired with `group_name`.
pub open spec fn entries_of(group_name: Text, group: GroupModel) -> Seq<Entry> {
    group.map_values(|c: (Text, Text)| (group_name, c.0))
}

/// The commands of all groups, group by group in catalog order.
pub open spec fn all_entries(catalog: Catalog) -> Seq<Entry>
    decreases catalog.len(),
{
    if catalog.len() == 0 {
        Seq::empty()
    } else {
        all_entries(catalog.drop_last()) + entries_of(catalog.last().0, catalog.last().1)
    }
}

/// What search mode shows for `query`: the entries of all groups whose
/// command name matches, in catalog order.
pub open spec fn search_results(catalog: Catalog, query: Text) -> Seq<Entry> {
    all_entries(catalog).filter(matcher(query))
}

/// What browsing shows: the commands of the group that `names[selected]`
/// names, or nothing where the index is out of range or the catalog has no
/// such group.
pub open spec fn group_entries(catalog: Catalog, names: Seq<Text>, selected: nat) -> Seq<Entry> {
    if selected < names.len() {
        match lookup(catalog, names[selected as int]) {
            Some(group) => entries_of(names[selected as int], group),
            None => Seq::empty(),
        }
    } else {
        Seq::empty()
    }
}

/// The visible list: what the command pane shows in state `nav`.
pub open spec fn visible(catalog: Catalog, names: Seq<Text>, nav: NavState) -> Seq<Entry> {
    if nav.search_active {
        search_results(catalog, nav.search_query)
    } else {
        group_entries(catalog, names, nav.selected_group)
    }
}

/// The entries of the catalog's first `n + 1` groups are those of the
/// first `n`, followed by the entries of group `n`.
pub proof fn lemma_all_entries_step(catalog: Catalog, n: int)
    requires
        0 <= n < catalog.len(),
    ensures
        all_entries(catalog.take(n + 1)) == all_entries(catalog.take(n)) + entries_of(
            catalog[n].0,
            catalog[n].1,
        ),
{
    assert(catalog.take(n + 1).drop_last() =~= catalog.take(n));
}

/// An entry is among the entries of all groups exactly when some group of
/// the catalog has its group name and a command of its command name.
pub proof fn lemma_all_entries_contains(catalog: Catalog, entry: Entry)
    ensures
        all_entries(catalog).contains(entry) <==> exists|g: int, c: int|
            0 <= g < catalog.len() && 0 <= c < catalog[g].1.len() && entry == (
                catalog[g].0,
                #[trigger] catalog[g].1[c].0,
            ),
    decreases catalog.len(),
{
    if catalog.len() == 0 {
    } else {
        let front = catalog.drop_last();
        let last = catalog.len() - 1;
        let tail = entries_of(catalog[last].0, catalog[last].1);
        lemma_all_entries_contains(front, entry);
        if all_entries(catalog).contains(entry) {
            let i = choose|i: int| 0 <= i < all_entries(catalog).len() && all_entries(catalog)[i] == entry;
            if i < all_entries(front).len() {
                assert(all_entries(front)[i] == entry);
                assert(all_entries(front).contains(entry));
                let (g, c) = choose|g: int, c: int|
                    0 <= g < front.len() && 0 <= c < front[g].1.len() && entry == (
                        front[g].0,
                        #[trigger] front[g].1[c].0,
                    );
                assert(entry == (catalog[g].0, catalog[g].1[c].0));
            } else {
                let c = i - all_entries(front).len();
                assert(tail[c] == entry);
                assert(entry == (catalog[last].0, catalog[last].1[c].0));
            }
        }
        if exists|g: int, c: int|
            0 <= g < catalog.len() && 0 <= c < catalog[g].1.len() && entry == (
                catalog[g].0,
                #[trigger] catalog[g].1[c].0,
            ) {
            let (g, c) = choose|g: int, c: int|
                0 <= g < catalog.len() && 0 <= c < catalog[g].1.len() && entry == (
                    catalog[g].0,
                    #[trigger] catalog[g].1[c].0,
                );
            if g < last {
                assert(entry == (front[g].0, front[g].1[c].0));
                let i = choose|i: int| 0 <= i < all_entries(front).len() && all_entries(front)[i] == entry;
                assert(all_entries(catalog)[i] == entry);
            } else {
                assert(tail[c] == entry);
                assert(all_entries(catalog)[all_entries(front).len() + c] == entry);
            }
        }
    }
}

/// Substring-match law. In search mode an entry is visible exactly when it
/// is an entry of the catalog and the lowercase form of its command name
/// contains the lowercase form of the query.
pub proof fn lemma_search_shows_the_matches(
    catalog: Catalog,
    names: Seq<Text>,
    nav: NavState,
    entry: Entry,
)
    requires
        nav.search_active,
    ensures
        visible(catalog, names, nav).contains(entry) <==> all_entries(catalog).contains(entry)
            && name_matches(entry.1, nav.search_query),
{
    let all = all_entries(catalog);
    let test = matcher(nav.search_query);
    let kept = all.filter(test);
    if kept.contains(entry) {
        let i = choose|i: int| 0 <= i < kept.len() && kept[i] == entry;
        all.lemma_filter_pred(test, i);
        all.lemma_filter_contains_rev(test, entry);
    }
    if all.contains(entry) && name_matches(entry.1, nav.search_query) {
        let i = choose|i: int| 0 <= i < all.len() && all[i] == entry;
        all.lemma_filter_contains(test, i);
    }
}

/// A test that every element passes filters nothing out.
pub proof fn lemma_filter_keeps_all(s: Seq<Entry>, test: spec_fn(Entry) -> bool)
    requires
        forall|i: int| 0 <= i < s.len() ==> test(s[i]),
    ensures
        s.filter(test) == s,
    decreases s.len(),
{
    reveal(Seq::filter);
    if s.len() > 0 {
        lemma_filter_keeps_all(s.drop_last(), test);
        assert(s.drop_last().push(s.last()) =~= s);
    }
}

/// In search mode the empty query shows the entries of all groups.
pub proof fn lemma_empty_query_shows_all(catalog: Catalog, names: Seq<Text>, nav: NavState)
    requires
        nav.search_active,
        nav.search_query.len() == 0,
    ensures
        visible(catalog, names, nav) == all_entries(catalog),
{
    let all = all_entries(catalog);
    let test = matcher(nav.search_query);
    lemma_filter_keeps_all(all, test);
}

/// While browsing a well-formed catalog by its own group names, the
/// visible list holds the commands of the group at the selected index.
pub proof fn lemma_browsing_shows_selected_group(catalog: Catalog, nav: NavState)
    requires
        crate::config::catalog_wf(catalog),
        !nav.search_active,
        nav.selected_group < catalog.len(),
    ensures
        visible(catalog, crate::config::keys_of(catalog), nav) == entries_of(
            catalog[nav.selected_group as int].0,
            catalog[nav.selected_group as int].1,
        ),
{
    let keys = crate::config::keys_of(catalog);
    let g = nav.selected_group as int;
    keys.index_of_first_ensures(keys[g]);
}

/// Filter determinism. The visible list depends on nothing but the
/// contents of the catalog, of the group names and of the state: inputs
/// with equal contents have the same visible list.
pub proof fn lemma_visible_is_deterministic(
    config_a: &Config,
    names_a: &[String],
    app_a: &AppState,
    config_b: &Config,
    names_b: &[String],
    app_b: &AppState,
)
    requires
        config_a@ == config_b@,
        names_a.deep_view() == names_b.deep_view(),
        app_a@ == app_b@,
    ensures
        visible(config_a@, names_a.deep_view(), app_a@) == visible(
            config_b@,
            names_b.deep_view(),
            app_b@,
        ),
{
}

/// Tells whether the command called `name` matches a query, given the
/// query's lowercase form.
fn name_matches_query(name: &String, query: &String, query_lower: &String) -> (r: bool)
    requires
        query_lower@ == lowercase(query@),
    ensures
        r == name_matches(name@, query@),
{
    if query.as_str().is_empty() {
        return true;
    }
    let name_lower = name.as_str().to_lowercase();
    proof {
        lemma_encoded_occurrence(name_lower@, query_lower@);
    }
    contains_bytes(name_lower.as_str().as_bytes(), query_lower.as_str().as_bytes())
}

/// Appends to `out` the commands of `group` that match the query, each
/// paired with `group_name`.
fn push_matching(
    out: &mut Vec<(String, String)>,
    group_name: &String,
    group: &Group,
    query: &String,
    query_lower: &String,
)
    requires
        query_lower@ == lowercase(query@),
    ensures
        final(out).deep_view() == old(out).deep_view() + entries_of(group_name@, group@).filter(
            matcher(query@),
        ),
{
    let ghost before = out.deep_view();
    let ghost all = entries_of(group_name@, group@);
    let mut i: usize = 0;
    proof {
        assert(all.take(0) =~= Seq::<Entry>::empty());
        reveal(Seq::filter);
        assert(out.deep_view() =~= before + all.take(0).filter(matcher(query@)));
    }
    while i < group.connections.len()
        invariant
            i <= group.connections@.len(),
            all == entries_of(group_name@, group@),
            all.len() == group.connections@.len(),
            query_lower@ == lowercase(query@),
            out.deep_view() == before + all.take(i as int).filter(matcher(query@)),
        decreases group.connections@.len() - i,
    {
        let name = &group.connections[i].0;
        let hit = name_matches_query(name, query, query_lower);
        proof {
            let e: Entry = (group_name@, name@);
            assert(all[i as int] == e);
            assert(all.take(i + 1) =~= all.take(i as int).push(e));
            all.take(i as int).lemma_filter_push(e, matcher(query@));
            assert(matcher(query@)(e) == hit);
        }
        if hit {
            let ghost shown = out.deep_view();
            out.push((group_name.clone(), name.clone()));
            assert(out.deep_view() =~= shown.push((group_name@, name@)));
        }
        i += 1;
    }
    assert(all.take(i as int) =~= all);
}

/// Appends to `out` all commands of `group`, each paired with `group_name`.
fn push_all(out: &mut Vec<(String, String)>, group_name: &String, group: &Group)
    ensures
        final(out).deep_view() == old(out).deep_view() + entries_of(group_name@, group@),
{
    let ghost before = out.deep_view();
    let ghost all = entries_of(group_name@, group@);
    let mut i: usize = 0;
    assert(out.deep_view() =~= before + all.take(0));
    while i < group.connections.len()
        invariant
            i <= group.connections@.len(),
            all == entries_of(group_name@, group@),
            all.len() == group.connections@.len(),
            out.deep_view() == before + all.take(i as int),
        decreases group.connections@.len() - i,
    {
        let name = &group.connections[i].0;
        let ghost shown = out.deep_view();
        out.push((group_name.clone(), name.clone()));
        proof {
            assert(all[i as int] == (group_name@, name@));
            assert(out.deep_view() =~= shown.push((group_name@, name@)));
            assert(before + all.take(i + 1) =~= (before + all.take(i as int)).push(all[i as int]));
        }
        i += 1;
    }
    assert(all.take(i as int) =~= all);
}

/// Computes the visible list.
///
/// While browsing, these are the commands of the group that
/// `group_names[app.selected_group]` names, and nothing where that index is
/// out of range or the catalog has no group of that name. In search mode
/// they are the commands of all groups whose name contains the query, both
/// taken in lowercase; the empty query keeps them all. Catalog order is kept.
pub fn get_filtered_connections(config: &Config, group_names: &[String], app: &AppState) -> (r: Vec<
    (String, String),
>)
    ensures
        r.deep_view() == visible(config@, group_names.deep_view(), app@),
{
    let mut out: Vec<(String, String)> = Vec::new();
    assert(out.deep_view() =~= Seq::<Entry>::empty());
    if app.search_mode {
        let query_lower = app.search_query.as_str().to_lowercase();
        let mut g: usize = 0;
        proof {
            reveal(Seq::filter);
            assert(config@.take(0) =~= Seq::empty());
            assert(out.deep_view() =~= search_results(config@.take(0), app.search_query@));
        }
        while g < config.groups.len()
            invariant
                g <= config.groups@.len(),
                query_lower@ == lowercase(app.search_query@),
                out.deep_view() == search_results(config@.take(g as int), app.search_query@),
            decreases config.groups@.len() - g,
        {
            let group_name = &config.groups[g].0;
            let group = &config.groups[g].1;
            proof {
                lemma_all_entries_step(config@, g as int);
                Seq::filter_distributes_over_add(
                    all_entries(config@.take(g as int)),
                    entries_of(group_name@, group@),
                    matcher(app.search_query@),
                );
            }
            push_matching(&mut out, group_name, group, &app.search_query, &query_lower);
            g += 1;
        }
        assert(config@.take(g as int) =~= config@);
    } else if app.selected_group < group_names.len() {
        let group_name = &group_names[app.selected_group];
        assert(group_names.deep_view()[app.selected_group as int] == group_name@);
        match config.group(group_name) {
            Some(group) => {
                push_all(&mut out, group_name, group);
                assert(out.deep_view() =~= entries_of(group_name@, group@));
            },
            None => {},
        }
    }
    out
}

/// A stretch of a command name, as a half-open range of byte offsets, and
/// whether it is to be shown as a match.
#[derive(Clone, Copy, Debug, PartialEq, Eq, Structural)]
pub struct Segment {
    pub start: usize,
    pub end: usize,
    pub highlighted: bool,
}

/// The mathematical content of a [`Segment`].
pub struct Piece {
    pub start: int,
    pub end: int,
    pub highlighted: bool,
}

impl View for Segment {
    type V = Piece;

    open spec fn view(&self) -> Piece {
        Piece { start: self.start as int, end: self.end as int, highlighted: self.highlighted }
    }
}

/// The contents of a sequence of segments.
pub open spec fn pieces_of(segments: Seq<Segment>) -> Seq<Piece> {
    segments.map_values(|s: Segment| s@)
}

/// Where the lowercase form of a name holds the lowercase form of a
/// query: the ranges found from left to right without overlap, as byte
/// offsets into the lowercase form. The empty query has none.
pub open spec fn lowercase_spans(name: Text, query: Text) -> Seq<(int, int)> {
    if query.len() == 0 {
        Seq::empty()
    } else {
        scan_from(lower_bytes(name), lower_bytes(query), 0)
    }
}

/// Both ends of every range lie on character boundaries of `bytes`, and so
/// within `bytes`.
pub open spec fn on_boundaries(bytes: Seq<u8>, ranges: Seq<(int, int)>) -> bool {
    forall|k: int|
        0 <= k < ranges.len() ==> is_char_boundary(bytes, (#[trigger] ranges[k]).0)
            && is_char_boundary(bytes, ranges[k].1)
}

/// The ranges of a command name that match a query, as byte ranges within
/// the name: the ranges where the lowercase form of the name holds the
/// lowercase form of the query, provided each of them begins and ends on a
/// character boundary of the name. Where lowercasing has moved the
/// characters so that one of them does not, the name has no ranges.
pub open spec fn match_spans(name: Text, query: Text) -> Seq<(int, int)> {
    if on_boundaries(encode_utf8(name), lowercase_spans(name, query)) {
        lowercase_spans(name, query)
    } else {
        Seq::empty()
    }
}

/// The pieces that `spans` cut a name of `len` bytes into, from offset
/// `from` on: before each span the plain piece that leads up to it, if it
/// is not empty; the span as a highlighted piece; and after the last span
/// the plain rest, if there is any.
pub open spec fn pieces_from(spans: Seq<(int, int)>, from: int, len: int) -> Seq<Piece>
    decreases spans.len(),
{
    if spans.len() == 0 {
        if from < len {
            seq![Piece { start: from, end: len, highlighted: false }]
        } else {
            Seq::empty()
        }
    } else {
        let lead = if from < spans[0].0 {
            seq![Piece { start: from, end: spans[0].0, highlighted: false }]
        } else {
            Seq::empty()
        };
        lead + seq![Piece { start: spans[0].0, end: spans[0].1, highlighted: true }] + pieces_from(
            spans.drop_first(),
            spans[0].1,
            len,
        )
    }
}

/// The pieces follow one another without gap from `from` to `len`, and
/// none is empty.
pub open spec fn tiles(pieces: Seq<Piece>, from: int, len: int) -> bool {
    &&& pieces.len() == 0 ==> from == len
    &&& pieces.len() > 0 ==> pieces[0].start == from && pieces.last().end == len
    &&& forall|k: int| 0 <= k < pieces.len() ==> (#[trigger] pieces[k]).start < pieces[k].end
    &&& forall|k: int| 0 < k < pieces.len() ==> pieces[k - 1].end == (#[trigger] pieces[k]).start
}

/// The ranges of the highlighted pieces, in order.
pub open spec fn highlighted_ranges(pieces: Seq<Piece>) -> Seq<(int, int)> {
    pieces.filter(|p: Piece| p.highlighted).map_values(|p: Piece| (p.start, p.end))
}

/// The spans after the first of ascending spans ascend from its end.
proof fn lemma_rest_ascends(spans: Seq<(int, int)>, from: int, len: int)
    requires
        spans.len() > 0,
        ascending_within(spans, from, len),
    ensures
        ascending_within(spans.drop_first(), spans[0].1, len),
        from <= spans[0].0 < spans[0].1 <= len,
{
    let rest = spans.drop_first();
    assert forall|k: int| 0 <= k < rest.len() implies {
        let floor = if k == 0 {
            spans[0].1
        } else {
            rest[k - 1].1
        };
        floor <= (#[trigger] rest[k]).0 < rest[k].1 <= len
    } by {
        assert(rest[k] == spans[k + 1]);
        if k > 0 {
            assert(rest[k - 1] == spans[k]);
        }
    }
    assert(from <= spans[0].0 < spans[0].1 <= len);
}

/// The pieces before and at the first span: the plain lead, if any, and
/// the span itself.
pub open spec fn head_pieces(first: (int, int), from: int) -> Seq<Piece> {
    let hit = Piece { start: first.0, end: first.1, highlighted: true };
    if from < first.0 {
        seq![Piece { start: from, end: first.0, highlighted: false }, hit]
    } else {
        seq![hit]
    }
}

/// The pieces of a non-empty sequence of spans are the head pieces of the
/// first span and the pieces of the rest.
proof fn lemma_pieces_unfold(spans: Seq<(int, int)>, from: int, len: int)
    requires
        spans.len() > 0,
    ensures
        pieces_from(spans, from, len) == head_pieces(spans[0], from) + pieces_from(
            spans.drop_first(),
            spans[0].1,
            len,
        ),
{
    let rest = pieces_from(spans.drop_first(), spans[0].1, len);
    assert(pieces_from(spans, from, len) =~= head_pieces(spans[0], from) + rest);
}

/// Ascending spans that end where the name ends, or before, cut the name
/// into pieces that tile it.
pub proof fn lemma_pieces_tile(spans: Seq<(int, int)>, from: int, len: int)
    requires
        from <= len,
        ascending_within(spans, from, len),
    ensures
        tiles(pieces_from(spans, from, len), from, len),
    decreases spans.len(),
{
    let pieces = pieces_from(spans, from, len);
    if spans.len() > 0 {
        let head = head_pieces(spans[0], from);
        let rest = pieces_from(spans.drop_first(), spans[0].1, len);
        lemma_rest_ascends(spans, from, len);
        lemma_pieces_tile(spans.drop_first(), spans[0].1, len);
        lemma_pieces_unfold(spans, from, len);
        assert(pieces.len() == head.len() + rest.len());
        assert forall|k: int| 0 <= k < pieces.len() implies (#[trigger] pieces[k]).start
            < pieces[k].end by {
            if k >= head.len() {
                assert(pieces[k] == rest[k - head.len()]);
            } else {
                assert(pieces[k] == head[k]);
            }
        }
        assert forall|k: int| 0 < k < pieces.len() implies pieces[k - 1].end == (
        #[trigger] pieces[k]).start by {
            if k > head.len() {
                assert(pieces[k] == rest[k - head.len()]);
                assert(pieces[k - 1] == rest[k - 1 - head.len()]);
            } else if k == head.len() {
                assert(pieces[k] == rest[0]);
                assert(pieces[k - 1] == head[k - 1]);
            } else {
                assert(pieces[k] == head[k]);
                assert(pieces[k - 1] == head[k - 1]);
            }
        }
        assert(pieces[0] == head[0]);
        if rest.len() > 0 {
            assert(pieces.last() == rest.last());
        } else {
            assert(pieces.last() == head.last());
        }
    }
}

/// The highlighted pieces that spans cut out of a name are the spans.
pub proof fn lemma_highlighted_pieces_are_spans(spans: Seq<(int, int)>, from: int, len: int)
    ensures
        highlighted_ranges(pieces_from(spans, from, len)) == spans,
    decreases spans.len(),
{
    let marked = |p: Piece| p.highlighted;
    let pieces = pieces_from(spans, from, len);
    let none = Seq::<Piece>::empty();
    assert(none.filter(marked) =~= none) by {
        reveal(Seq::filter);
    }
    if spans.len() == 0 {
        if from < len {
            let only = Piece { start: from, end: len, highlighted: false };
            assert(pieces =~= none.push(only));
            none.lemma_filter_push(only, marked);
        }
        assert(highlighted_ranges(pieces) =~= spans);
    } else {
        let head = head_pieces(spans[0], from);
        let rest = pieces_from(spans.drop_first(), spans[0].1, len);
        let hit = Piece { start: spans[0].0, end: spans[0].1, highlighted: true };
        lemma_highlighted_pieces_are_spans(spans.drop_first(), spans[0].1, len);
        lemma_pieces_unfold(spans, from, len);
        assert(head.filter(marked) =~= seq![hit]) by {
            if from < spans[0].0 {
                let plain = Piece { start: from, end: spans[0].0, highlighted: false };
                assert(head =~= none.push(plain).push(hit));
                none.lemma_filter_push(plain, marked);
                none.push(plain).lemma_filter_push(hit, marked);
            } else {
                assert(head =~= none.push(hit));
                none.lemma_filter_push(hit, marked);
            }
        }
        Seq::filter_distributes_over_add(head, rest, marked);
        assert(pieces.filter(marked) == seq![hit] + rest.filter(marked));
        assert(highlighted_ranges(pieces) =~= seq![(spans[0].0, spans[0].1)] + highlighted_ranges(
            rest,
        ));
        assert(seq![(spans[0].0, spans[0].1)] + spans.drop_first() =~= spans);
    }
}

/// A character boundary of valid UTF-8 lies within the bytes.
pub proof fn lemma_boundary_within(bytes: Seq<u8>, index: int)
    requires
        valid_utf8(bytes),
        is_char_boundary(bytes, index),
    ensures
        0 <= index <= bytes.len(),
{
}

/// The matching ranges of a name ascend without overlap and lie within the
/// name, on its character boundaries.
pub proof fn lemma_match_spans_ascend(name: Text, query: Text)
    ensures
        ascending_within(match_spans(name, query), 0, encode_utf8(name).len() as int),
        on_boundaries(encode_utf8(name), match_spans(name, query)),
{
    let bytes = encode_utf8(name);
    let spans = match_spans(name, query);
    encode_utf8_valid_utf8(name);
    if query.len() > 0 {
        lemma_scan_ascends(lower_bytes(name), lower_bytes(query), 0);
    }
    assert forall|k: int| 0 <= k < spans.len() implies {
        let floor = if k == 0 {
            0
        } else {
            spans[k - 1].1
        };
        floor <= (#[trigger] spans[k]).0 < spans[k].1 <= bytes.len()
    } by {
        lemma_boundary_within(bytes, spans[k].1);
    }
}

/// Every piece begins and ends on a character boundary of `bytes`.
pub open spec fn pieces_on_boundaries(bytes: Seq<u8>, pieces: Seq<Piece>) -> bool {
    forall|k: int|
        0 <= k < pieces.len() ==> is_char_boundary(bytes, (#[trigger] pieces[k]).start)
            && is_char_boundary(bytes, pieces[k].end)
}

/// Spans on character boundaries cut a name, from a boundary to a
/// boundary, into pieces on character boundaries.
pub proof fn lemma_pieces_on_boundaries(
    bytes: Seq<u8>,
    spans: Seq<(int, int)>,
    from: int,
    len: int,
)
    requires
        is_char_boundary(bytes, from),
        is_char_boundary(bytes, len),
        on_boundaries(bytes, spans),
    ensures
        pieces_on_boundaries(bytes, pieces_from(spans, from, len)),
    decreases spans.len(),
{
    let pieces = pieces_from(spans, from, len);
    if spans.len() > 0 {
        let head = head_pieces(spans[0], from);
        let rest_spans = spans.drop_first();
        let rest = pieces_from(rest_spans, spans[0].1, len);
        assert(on_boundaries(bytes, rest_spans)) by {
            assert forall|k: int| 0 <= k < rest_spans.len() implies is_char_boundary(
                bytes,
                (#[trigger] rest_spans[k]).0,
            ) && is_char_boundary(bytes, rest_spans[k].1) by {
                assert(rest_spans[k] == spans[k + 1]);
            }
        }
        assert(is_char_boundary(bytes, spans[0].0) && is_char_boundary(bytes, spans[0].1));
        lemma_pieces_on_boundaries(bytes, rest_spans, spans[0].1, len);
        lemma_pieces_unfold(spans, from, len);
        assert forall|k: int| 0 <= k < pieces.len() implies is_char_boundary(
            bytes,
            (#[trigger] pieces[k]).start,
        ) && is_char_boundary(bytes, pieces[k].end) by {
            if k >= head.len() {
                assert(pieces[k] == rest[k - head.len()]);
            } else {
                assert(pieces[k] == head[k]);
            }
        }
    }
}

/// Whatever the name and the query, the pieces that the query cuts the
/// name into tile it from its first byte to its last, each piece begins and
/// ends on a character boundary of the name, and the highlighted pieces are
/// the matching ranges.
pub proof fn lemma_highlight_tiles_name(name: Text, query: Text)
    ensures
        tiles(
            pieces_from(match_spans(name, query), 0, encode_utf8(name).len() as int),
            0,
            encode_utf8(name).len() as int,
        ),
        pieces_on_boundaries(
            encode_utf8(name),
            pieces_from(match_spans(name, query), 0, encode_utf8(name).len() as int),
        ),
        highlighted_ranges(
            pieces_from(match_spans(name, query), 0, encode_utf8(name).len() as int),
        ) == match_spans(name, query),
{
    let bytes = encode_utf8(name);
    let len = bytes.len() as int;
    encode_utf8_valid_utf8(name);
    is_char_boundary_start_end_of_seq(bytes);
    lemma_match_spans_ascend(name, query);
    lemma_pieces_tile(match_spans(name, query), 0, len);
    lemma_pieces_on_boundaries(bytes, match_spans(name, query), 0, len);
    lemma_highlighted_pieces_are_spans(match_spans(name, query), 0, len);
}

/// Filter and highlighting agree: a name matches a query with a non-empty
/// lowercase form exactly when the lowercase form of the name holds a
/// range for it, and a name with a matching range matches.
pub proof fn lemma_matches_have_spans(name: Text, query: Text)
    ensures
        query.len() > 0 && lowercase(query).len() > 0 ==> (name_matches(name, query)
            <==> lowercase_spans(name, query).len() > 0),
        match_spans(name, query).len() > 0 ==> name_matches(name, query),
{
    if query.len() > 0 {
        if lowercase(query).len() > 0 {
            encode_utf8_first_scalar(lowercase(query));
            lemma_scan_finds_occurrences(lower_bytes(name), lower_bytes(query), 0);
            lemma_encoded_occurrence(lowercase(name), lowercase(query));
        }
    }
}

/// Tells whether both ends of every range lie on character boundaries of
/// `cmd`.
fn spans_fit(cmd: &str, spans: &Vec<(usize, usize)>) -> (r: bool)
    ensures
        r == on_boundaries(encode_utf8(cmd@), ranges_of(spans@)),
{
    let ghost bytes = encode_utf8(cmd@);
    let ghost ranges = ranges_of(spans@);
    let mut i: usize = 0;
    while i < spans.len()
        invariant
            i <= spans@.len(),
            bytes == encode_utf8(cmd@),
            ranges == ranges_of(spans@),
            forall|k: int|
                0 <= k < i ==> is_char_boundary(bytes, (#[trigger] ranges[k]).0)
                    && is_char_boundary(bytes, ranges[k].1),
        decreases spans@.len() - i,
    {
        let span = spans[i];
        assert(ranges[i as int] == (span.0 as int, span.1 as int));
        if !cmd.is_char_boundary(span.0) || !cmd.is_char_boundary(span.1) {
            return false;
        }
        i += 1;
    }
    true
}

/// Finds the ranges of the command name `cmd` that match `query`, as byte
/// ranges within the name.
///
/// The matches are found in the lowercase form of the name. Their offsets
/// are those of the name wherever lowercasing keeps the number of bytes of
/// each character, as it does for ASCII. Where it does not, and a range
/// would begin or end off a character boundary of the name or beyond it,
/// no range is returned.
pub fn find_match_spans(cmd: &str, query: &str) -> (r: Vec<(usize, usize)>)
    ensures
        ranges_of(r@) == match_spans(cmd@, query@),
{
    if query.is_empty() {
        let none: Vec<(usize, usize)> = Vec::new();
        assert(ranges_of(none@) =~= match_spans(cmd@, query@));
        return none;
    }
    let cmd_lower = cmd.to_lowercase();
    let query_lower = query.to_lowercase();
    let found = match_ranges(cmd_lower.as_str().as_bytes(), query_lower.as_str().as_bytes());
    if spans_fit(cmd, &found) {
        found
    } else {
        let none: Vec<(usize, usize)> = Vec::new();
        assert(ranges_of(none@) =~= match_spans(cmd@, query@));
        none
    }
}

/// Cuts the command name `cmd` into the pieces that show where it matches
/// `query`: plain and highlighted stretches in turn, from the first byte of
/// the name to its last.
///
/// The pieces tile the name, and each is a range of whole characters of
/// it. A name whose matches cannot be given as ranges of the name itself
/// comes back as one plain piece.
pub fn highlight_search(cmd: &str, query: &str) -> (r: Vec<Segment>)
    ensures
        pieces_of(r@) == pieces_from(match_spans(cmd@, query@), 0, encode_utf8(cmd@).len() as int),
        tiles(pieces_of(r@), 0, encode_utf8(cmd@).len() as int),
        pieces_on_boundaries(encode_utf8(cmd@), pieces_of(r@)),
        highlighted_ranges(pieces_of(r@)) == match_spans(cmd@, query@),
{
    proof {
        lemma_highlight_tiles_name(cmd@, query@);
    }
    let spans = find_match_spans(cmd, query);
    let len: usize = cmd.as_bytes().len();
    let ghost all = match_spans(cmd@, query@);
    let mut out: Vec<Segment> = Vec::new();
    let mut last: usize = 0;
    let mut i: usize = 0;
    assert(pieces_of(out@) =~= Seq::<Piece>::empty());
    assert(all.skip(0) =~= all);
    while i < spans.len()
        invariant
            i <= spans@.len(),
            all == ranges_of(spans@),
            len == encode_utf8(cmd@).len(),
            pieces_of(out@) + pieces_from(all.skip(i as int), last as int, len as int)
                == pieces_from(all, 0, len as int),
        decreases spans@.len() - i,
    {
        let span = spans[i];
        let ghost before = pieces_of(out@);
        let ghost rest = all.skip(i as int);
        proof {
            assert(rest[0] == (span.0 as int, span.1 as int));
            assert(rest.drop_first() =~= all.skip(i + 1));
        }
        if last < span.0 {
            let ghost shown = out@;
            out.push(Segment { start: last, end: span.0, highlighted: false });
            assert(pieces_of(out@) =~= pieces_of(shown).push(
                Piece { start: last as int, end: span.0 as int, highlighted: false },
            ));
        }
        let ghost shown = out@;
        out.push(Segment { start: span.0, end: span.1, highlighted: true });
        proof {
            assert(pieces_of(out@) =~= pieces_of(shown).push(
                Piece { start: span.0 as int, end: span.1 as int, highlighted: true },
            ));
            assert(pieces_of(out@) + pieces_from(all.skip(i + 1), span.1 as int, len as int)
                =~= before + pieces_from(rest, last as int, len as int));
        }
        last = span.1;
        i += 1;
    }
    if last < len {
        let ghost shown = out@;
        out.push(Segment { start: last, end: len, highlighted: false });
        assert(pieces_of(out@) =~= pieces_of(shown).push(
            Piece { start: last as int, end: len as int, highlighted: false },
        ));
    }
    assert(pieces_of(out@) =~= pieces_from(all, 0, len as int));
    out
}

} // verus!
