//! Tags as the tags field holds them, and the project and tag suggestions
//! offered while typing: how each is scored, which are kept, their order,
//! and what accepting one does to the field.
use vstd::prelude::*;

use crate::command::string_views;
use crate::config::LentilConfig;
use crate::order::{insert_sorted, lemma_is_sorted_set, same_elements, sorted_set, strictly_sorted};
use crate::order::lex_lt;
use crate::text::{
    chars_of, contains, contains_chars, is_sep, lower_chars, split_by, split_chars, starts_with,
    starts_with_chars, string_from_chars, to_lower, trim, trim_chars, views, Sep,
};

verus! {

/// The text without its leading `#` characters (`trim_start_matches('#')`).
pub open spec fn strip_hashes(s: Seq<char>) -> Seq<char>
    decreases s.len(),
{
    if s.len() > 0 && s[0] == '#' {
        strip_hashes(s.drop_first())
    } else {
        s
    }
}

/// The tag a piece of the tags field names: trimmed, without leading `#`,
/// in ASCII lower case (empty when it names none).
pub open spec fn tag_of(piece: Seq<char>) -> Seq<char> {
    to_lower(strip_hashes(trim(piece)))
}

/// The tags the pieces name, in order, repeats included.
pub open spec fn tags_of_pieces(pieces: Seq<Seq<char>>) -> Seq<Seq<char>>
    decreases pieces.len(),
{
    if pieces.len() == 0 {
        Seq::empty()
    } else if tag_of(pieces.last()).len() > 0 {
        tags_of_pieces(pieces.drop_last()).push(tag_of(pieces.last()))
    } else {
        tags_of_pieces(pieces.drop_last())
    }
}

/// The tags a tags field names: its pieces between whitespace and commas.
pub open spec fn tags_in(input: Seq<char>) -> Seq<Seq<char>> {
    tags_of_pieces(split_by(input, Sep::WhitespaceOrComma))
}

fn strip_hashes_chars(v: &Vec<char>) -> (res: Vec<char>)
    ensures
        res@ == strip_hashes(v@),
{
    let mut i: usize = 0;
    assert(v@.skip(0) =~= v@);
    while i < v.len() && v[i] == '#'
        invariant
            i <= v.len(),
            strip_hashes(v@) == strip_hashes(v@.skip(i as int)),
        decreases v.len() - i,
    {
        assert(v@.skip(i as int).drop_first() =~= v@.skip(i + 1));
        i = i + 1;
    }
    let res = crate::text::copy_range(v, i, v.len());
    assert(res@ =~= v@.skip(i as int));
    res
}

proof fn lemma_tags_of_pieces_step(pieces: Seq<Seq<char>>, i: int)
    requires
        0 <= i < pieces.len(),
    ensures
        tags_of_pieces(pieces.take(i + 1)) == if tag_of(pieces[i]).len() > 0 {
            tags_of_pieces(pieces.take(i)).push(tag_of(pieces[i]))
        } else {
            tags_of_pieces(pieces.take(i))
        },
{
    assert(pieces.take(i + 1).drop_last() =~= pieces.take(i));
}

/// The tags the field names, sorted, each once.
fn tag_set(input: &Vec<char>) -> (res: Vec<Vec<char>>)
    ensures
        views(res@) == sorted_set(tags_in(input@)),
        strictly_sorted(views(res@)),
        same_elements(views(res@), tags_in(input@)),
{
    let pieces = split_chars(input, Sep::WhitespaceOrComma);
    let ghost ps = views(pieces@);
    let mut res: Vec<Vec<char>> = Vec::new();
    let mut i: usize = 0;
    assert(ps.take(0) =~= Seq::<Seq<char>>::empty());
    while i < pieces.len()
        invariant
            i <= pieces.len(),
            ps == views(pieces@),
            ps == split_by(input@, Sep::WhitespaceOrComma),
            strictly_sorted(views(res@)),
            same_elements(views(res@), tags_of_pieces(ps.take(i as int))),
        decreases pieces.len() - i,
    {
        proof {
            lemma_tags_of_pieces_step(ps, i as int);
        }
        assert(ps[i as int] == pieces@[i as int]@);
        let tag = lower_chars(&strip_hashes_chars(&trim_chars(&pieces[i])));
        let ghost before = tags_of_pieces(ps.take(i as int));
        if tag.len() > 0 {
            let ghost tv = tag@;
            insert_sorted(&mut res, tag);
            assert forall|t: Seq<char>|
                views(res@).contains(t) <==> before.push(tv).contains(t) by {
                if before.push(tv).contains(t) && t != tv {
                    let k = choose|k: int| 0 <= k < before.push(tv).len() && before.push(tv)[k] == t;
                    assert(before[k] == t);
                }
                if before.contains(t) {
                    let k = choose|k: int| 0 <= k < before.len() && before[k] == t;
                    assert(before.push(tv)[k] == t);
                }
                assert(before.push(tv)[before.len() as int] == tv);
            }
        }
        i = i + 1;
    }
    assert(ps.take(pieces.len() as int) =~= ps);
    proof {
        lemma_is_sorted_set(views(res@), tags_in(input@));
    }
    res
}

fn to_strings(v: &Vec<Vec<char>>) -> (res: Vec<String>)
    ensures
        string_views(res@) == views(v@),
{
    let mut res: Vec<String> = Vec::new();
    let mut i: usize = 0;
    while i < v.len()
        invariant
            i <= v.len(),
            string_views(res@) == views(v@).take(i as int),
        decreases v.len() - i,
    {
        let s = string_from_chars(&v[i]);
        let ghost prev = string_views(res@);
        res.push(s);
        assert(string_views(res@) =~= prev.push(v@[i as int]@));
        i = i + 1;
        assert(string_views(res@) =~= views(v@).take(i as int));
    }
    assert(views(v@).take(v.len() as int) =~= views(v@));
    res
}

/// The tags a tags field names, sorted, each once: the field is split at
/// whitespace and commas, and each piece loses its leading `#` characters
/// and is lower-cased (ASCII); pieces left empty are dropped.
pub fn normalize_tags(input: &str) -> (tags: Vec<String>)
    ensures
        string_views(tags@) == sorted_set(tags_in(input@)),
{
    to_strings(&tag_set(&chars_of(input)))
}

/// The tags written `#tag`, separated by single spaces.
pub open spec fn hash_join(tags: Seq<Seq<char>>) -> Seq<char>
    decreases tags.len(),
{
    if tags.len() == 0 {
        Seq::empty()
    } else if tags.len() == 1 {
        seq!['#'] + tags[0]
    } else {
        hash_join(tags.drop_last()) + seq![' ', '#'] + tags.last()
    }
}

fn hash_join_chars(tags: &Vec<Vec<char>>) -> (res: Vec<char>)
    ensures
        res@ == hash_join(views(tags@)),
{
    let ghost ts = views(tags@);
    let mut res: Vec<char> = Vec::new();
    let mut i: usize = 0;
    assert(ts.take(0) =~= Seq::<Seq<char>>::empty());
    while i < tags.len()
        invariant
            i <= tags.len(),
            ts == views(tags@),
            res@ == hash_join(ts.take(i as int)),
        decreases tags.len() - i,
    {
        assert(ts.take(i + 1).drop_last() =~= ts.take(i as int));
        assert(ts.take(i + 1).last() == tags@[i as int]@);
        if i > 0 {
            res.push(' ');
        }
        res.push('#');
        crate::text::append_chars(&mut res, &tags[i]);
        proof {
            if i == 0 {
                assert(ts.take(1)[0] == tags@[0]@);
            }
        }
        assert(res@ =~= hash_join(ts.take(i + 1)));
        i = i + 1;
    }
    assert(ts.take(tags.len() as int) =~= ts);
    res
}

/// What the tags field holds after a suggestion is inserted: with none
/// selected, the field trimmed; otherwise the tags it names together with
/// the selected one, sorted, each once, written `#tag #tag …`.
pub open spec fn merged_tags(current: Seq<char>, selected: Option<Seq<char>>) -> Seq<char> {
    match selected {
        None => trim(current),
        Some(s) => hash_join(sorted_set(tags_in(current).push(s))),
    }
}

/// Inserts a selected tag into the tags field (see `merged_tags`).
pub fn merge_tag_input(current: &str, selected: Option<&str>) -> (res: String)
    ensures
        res@ == merged_tags(
            current@,
            match selected {
                Some(s) => Some(s@),
                None => None,
            },
        ),
{
    let sel = match selected {
        Some(s) => s,
        None => return crate::text::trimmed(current),
    };
    let mut tags = tag_set(&chars_of(current));
    let ghost before = views(tags@);
    let sv = chars_of(sel);
    let ghost svv = sv@;
    insert_sorted(&mut tags, sv);
    proof {
        let all = tags_in(current@).push(svv);
        assert(strictly_sorted(before) && same_elements(before, tags_in(current@)));
        assert forall|t: Seq<char>| views(tags@).contains(t) <==> all.contains(t) by {
            if all.contains(t) && t != svv {
                let k = choose|k: int| 0 <= k < all.len() && all[k] == t;
                assert(tags_in(current@)[k] == t);
            }
            if tags_in(current@).contains(t) {
                let k = choose|k: int| 0 <= k < tags_in(current@).len() && tags_in(current@)[k] == t;
                assert(all[k] == t);
            }
            assert(all[tags_in(current@).len() as int] == svv);
        }
        lemma_is_sorted_set(views(tags@), all);
    }
    string_from_chars(&hash_join_chars(&tags))
}

/// A tag as the tags field gives it back: not empty, not starting with `#`,
/// already in ASCII lower case, without whitespace or commas.
pub open spec fn clean_tag(t: Seq<char>) -> bool {
    &&& t.len() > 0
    &&& t[0] != '#'
    &&& to_lower(t) == t
    &&& forall|i: int| 0 <= i < t.len() ==> !is_sep(Sep::WhitespaceOrComma, #[trigger] t[i])
}

proof fn lemma_strip_hashes(s: Seq<char>)
    ensures
        strip_hashes(s) == s.subrange(s.len() - strip_hashes(s).len(), s.len() as int),
        strip_hashes(s).len() <= s.len(),
        strip_hashes(s).len() > 0 ==> strip_hashes(s)[0] != '#',
    decreases s.len(),
{
    if s.len() > 0 && s[0] == '#' {
        lemma_strip_hashes(s.drop_first());
        assert(s.drop_first().subrange(
            s.drop_first().len() - strip_hashes(s).len(),
            s.drop_first().len() as int,
        ) =~= s.subrange(s.len() - strip_hashes(s).len(), s.len() as int));
    } else {
        assert(s.subrange(0, s.len() as int) =~= s);
    }
}

proof fn lemma_tag_of_clean(piece: Seq<char>)
    requires
        forall|i: int| 0 <= i < piece.len() ==> !is_sep(Sep::WhitespaceOrComma, #[trigger] piece[i]),
    ensures
        tag_of(piece).len() > 0 ==> clean_tag(tag_of(piece)),
{
    if piece.len() > 0 {
        assert(!is_sep(Sep::WhitespaceOrComma, piece[0]));
        assert(!is_sep(Sep::WhitespaceOrComma, piece[piece.len() - 1]));
    }
    assert(crate::text::trim_start(piece) == piece);
    assert(trim(piece) == piece);
    lemma_strip_hashes(piece);
    let h = strip_hashes(piece);
    let off = piece.len() - h.len();
    assert forall|i: int| 0 <= i < h.len() implies !is_sep(Sep::WhitespaceOrComma, #[trigger] h[i]) by {
        assert(h[i] == piece[off + i]);
    }
    let l = to_lower(h);
    assert forall|i: int| 0 <= i < l.len() implies !is_sep(Sep::WhitespaceOrComma, #[trigger] l[i]) by {
        assert(!is_sep(Sep::WhitespaceOrComma, h[i]));
    }
    assert(to_lower(l) =~= l);
}

proof fn lemma_tags_of_pieces_clean(pieces: Seq<Seq<char>>)
    requires
        forall|k: int, i: int|
            0 <= k < pieces.len() && 0 <= i < pieces[k].len() ==> !is_sep(
                Sep::WhitespaceOrComma,
                #[trigger] pieces[k][i],
            ),
    ensures
        forall|k: int| 0 <= k < tags_of_pieces(pieces).len() ==> clean_tag(
            #[trigger] tags_of_pieces(pieces)[k],
        ),
    decreases pieces.len(),
{
    if pieces.len() > 0 {
        let init = pieces.drop_last();
        assert forall|k: int, i: int| 0 <= k < init.len() && 0 <= i < init[k].len() implies !is_sep(
            Sep::WhitespaceOrComma,
            #[trigger] init[k][i],
        ) by {
            assert(init[k] == pieces[k]);
        }
        lemma_tags_of_pieces_clean(init);
        let last = pieces.last();
        assert forall|i: int| 0 <= i < last.len() implies !is_sep(
            Sep::WhitespaceOrComma,
            #[trigger] last[i],
        ) by {
            assert(pieces[pieces.len() - 1][i] == last[i]);
        }
        lemma_tag_of_clean(last);
        let prev = tags_of_pieces(init);
        assert forall|k: int| 0 <= k < tags_of_pieces(pieces).len() implies clean_tag(
            #[trigger] tags_of_pieces(pieces)[k],
        ) by {
            if k < prev.len() {
                assert(tags_of_pieces(pieces)[k] == prev[k]);
            }
        }
    }
}

/// Every tag a tags field names is a clean tag.
pub proof fn lemma_tags_in_clean(input: Seq<char>)
    ensures
        forall|k: int| 0 <= k < tags_in(input).len() ==> clean_tag(#[trigger] tags_in(input)[k]),
{
    crate::text::lemma_split_pieces_no_sep(input, Sep::WhitespaceOrComma);
    lemma_tags_of_pieces_clean(split_by(input, Sep::WhitespaceOrComma));
}

proof fn lemma_tag_of_hashed(t: Seq<char>)
    requires
        clean_tag(t),
    ensures
        tag_of(seq!['#'] + t) == t,
        forall|i: int|
            0 <= i < (seq!['#'] + t).len() ==> !is_sep(
                Sep::WhitespaceOrComma,
                #[trigger] (seq!['#'] + t)[i],
            ),
{
    let h = seq!['#'] + t;
    assert forall|i: int| 0 <= i < h.len() implies !is_sep(Sep::WhitespaceOrComma, #[trigger] h[i]) by {
        if i > 0 {
            assert(h[i] == t[i - 1]);
        }
    }
    assert(!is_sep(Sep::WhitespaceOrComma, h[h.len() - 1]));
    assert(crate::text::trim_start(h) == h);
    assert(trim(h) == h);
    assert(h.drop_first() =~= t);
    assert(strip_hashes(t) == t);
}

/// Reading back tags written `#tag #tag …` gives the same tags.
pub proof fn lemma_hash_join_reads_back(r: Seq<Seq<char>>)
    requires
        forall|k: int| 0 <= k < r.len() ==> clean_tag(#[trigger] r[k]),
    ensures
        tags_in(hash_join(r)) == r,
    decreases r.len(),
{
    let sep = Sep::WhitespaceOrComma;
    if r.len() == 0 {
        let e = Seq::<char>::empty();
        assert(hash_join(r) == e);
        assert(split_by(e, sep) =~= seq![e]);
        assert(seq![e].drop_last() =~= Seq::<Seq<char>>::empty());
        assert(trim(e) == e);
        assert(strip_hashes(e) == e);
        assert(to_lower(e) =~= e);
        assert(tag_of(e).len() == 0);
        assert(seq![e].last() == e);
        assert(tags_of_pieces(seq![e]) == tags_of_pieces(Seq::<Seq<char>>::empty()));
        assert(tags_in(hash_join(r)) =~= r);
    } else if r.len() == 1 {
        assert(clean_tag(r[0]));
        lemma_tag_of_hashed(r[0]);
        let h = seq!['#'] + r[0];
        assert(hash_join(r) == h);
        crate::text::lemma_split_no_sep(h, sep);
        assert(seq![h].drop_last() =~= Seq::<Seq<char>>::empty());
        assert(seq![h].last() == h);
        assert(tag_of(h) == r[0] && r[0].len() > 0);
        assert(tags_of_pieces(Seq::<Seq<char>>::empty()) == Seq::<Seq<char>>::empty());
        assert(tags_of_pieces(seq![h]) == tags_of_pieces(seq![h].drop_last()).push(tag_of(h)));
        assert(tags_of_pieces(seq![h]) =~= seq![r[0]]);
        assert(tags_in(hash_join(r)) =~= r);
    } else {
        let r2 = r.drop_last();
        assert forall|k: int| 0 <= k < r2.len() implies clean_tag(#[trigger] r2[k]) by {
            assert(r2[k] == r[k]);
        }
        lemma_hash_join_reads_back(r2);
        let last = r.last();
        assert(clean_tag(r[r.len() - 1]));
        lemma_tag_of_hashed(last);
        let a = hash_join(r2);
        let b = seq!['#'] + last;
        assert(hash_join(r) =~= a + seq![' '] + b);
        crate::text::lemma_split_concat(a, b, sep, ' ');
        crate::text::lemma_split_no_sep(b, sep);
        let pa = split_by(a, sep);
        assert((pa + seq![b]).drop_last() =~= pa);
        assert(tags_in(hash_join(r)) =~= r);
    }
}

/// Inserting a clean tag a second time changes nothing: after a tag is
/// merged into the tags field, merging it again leaves the field as it is.
pub proof fn law_merge_tag_idempotent(current: Seq<char>, tag: Seq<char>)
    requires
        clean_tag(tag),
    ensures
        merged_tags(merged_tags(current, Some(tag)), Some(tag)) == merged_tags(current, Some(tag)),
{
    let all = tags_in(current).push(tag);
    crate::order::lemma_sorted_set(all);
    let r = sorted_set(all);
    lemma_tags_in_clean(current);
    assert forall|k: int| 0 <= k < r.len() implies clean_tag(#[trigger] r[k]) by {
        assert(all.contains(r[k]));
        let m = choose|m: int| 0 <= m < all.len() && all[m] == r[k];
        if m < tags_in(current).len() {
            assert(all[m] == tags_in(current)[m]);
        }
    }
    lemma_hash_join_reads_back(r);
    assert(all.contains(tag)) by {
        assert(all[all.len() - 1] == tag);
    }
    assert forall|t: Seq<char>| r.push(tag).contains(t) <==> r.contains(t) by {
        if r.push(tag).contains(t) {
            let k = choose|k: int| 0 <= k < r.push(tag).len() && r.push(tag)[k] == t;
            if k < r.len() {
                assert(r[k] == t);
            }
        }
        if r.contains(t) {
            let k = choose|k: int| 0 <= k < r.len() && r[k] == t;
            assert(r.push(tag)[k] == t);
        }
    }
    lemma_is_sorted_set(r, r.push(tag));
}

/// After a clean tag is merged into the tags field, the task is added with
/// exactly the tags the field named before, together with that tag.
pub proof fn law_merged_tags_reach_task(current: Seq<char>, tag: Seq<char>)
    requires
        clean_tag(tag),
    ensures
        sorted_set(tags_in(merged_tags(current, Some(tag)))) == sorted_set(
            tags_in(current).push(tag),
        ),
{
    let all = tags_in(current).push(tag);
    crate::order::lemma_sorted_set(all);
    let r = sorted_set(all);
    lemma_tags_in_clean(current);
    assert forall|k: int| 0 <= k < r.len() implies clean_tag(#[trigger] r[k]) by {
        assert(all.contains(r[k]));
        let m = choose|m: int| 0 <= m < all.len() && all[m] == r[k];
        if m < tags_in(current).len() {
            assert(all[m] == tags_in(current)[m]);
        }
    }
    lemma_hash_join_reads_back(r);
    lemma_is_sorted_set(r, r);
}

/// The tags separated by single spaces (`join(" ")`).
pub open spec fn space_join(tags: Seq<Seq<char>>) -> Seq<char>
    decreases tags.len(),
{
    if tags.len() == 0 {
        Seq::empty()
    } else if tags.len() == 1 {
        tags[0]
    } else {
        space_join(tags.drop_last()) + seq![' '] + tags.last()
    }
}

proof fn lemma_tag_of_plain(t: Seq<char>)
    requires
        clean_tag(t),
    ensures
        tag_of(t) == t,
{
    assert(!is_sep(Sep::WhitespaceOrComma, t[0]));
    assert(!is_sep(Sep::WhitespaceOrComma, t[t.len() - 1]));
    assert(crate::text::trim_start(t) == t);
    assert(trim(t) == t);
    assert(strip_hashes(t) == t);
}

/// Reading back tags written `tag tag …` gives the same tags.
pub proof fn lemma_space_join_reads_back(r: Seq<Seq<char>>)
    requires
        forall|k: int| 0 <= k < r.len() ==> clean_tag(#[trigger] r[k]),
    ensures
        tags_in(space_join(r)) == r,
    decreases r.len(),
{
    let sep = Sep::WhitespaceOrComma;
    if r.len() == 0 {
        let e = Seq::<char>::empty();
        assert(space_join(r) == e);
        assert(split_by(e, sep) =~= seq![e]);
        assert(seq![e].drop_last() =~= Seq::<Seq<char>>::empty());
        assert(trim(e) == e);
        assert(strip_hashes(e) == e);
        assert(to_lower(e) =~= e);
        assert(tag_of(e).len() == 0);
        assert(seq![e].last() == e);
        assert(tags_of_pieces(seq![e]) == tags_of_pieces(Seq::<Seq<char>>::empty()));
        assert(tags_in(space_join(r)) =~= r);
    } else if r.len() == 1 {
        let h = r[0];
        assert(clean_tag(h));
        lemma_tag_of_plain(h);
        assert(space_join(r) == h);
        crate::text::lemma_split_no_sep(h, sep);
        assert(seq![h].drop_last() =~= Seq::<Seq<char>>::empty());
        assert(seq![h].last() == h);
        assert(tags_of_pieces(Seq::<Seq<char>>::empty()) == Seq::<Seq<char>>::empty());
        assert(tags_of_pieces(seq![h]) == tags_of_pieces(seq![h].drop_last()).push(tag_of(h)));
        assert(tags_of_pieces(seq![h]) =~= seq![r[0]]);
        assert(tags_in(space_join(r)) =~= r);
    } else {
        let r2 = r.drop_last();
        assert forall|k: int| 0 <= k < r2.len() implies clean_tag(#[trigger] r2[k]) by {
            assert(r2[k] == r[k]);
        }
        lemma_space_join_reads_back(r2);
        let b = r.last();
        assert(clean_tag(r[r.len() - 1]));
        lemma_tag_of_plain(b);
        let a = space_join(r2);
        assert(space_join(r) =~= a + seq![' '] + b);
        crate::text::lemma_split_concat(a, b, sep, ' ');
        crate::text::lemma_split_no_sep(b, sep);
        let pa = split_by(a, sep);
        assert((pa + seq![b]).drop_last() =~= pa);
        assert(tags_in(space_join(r)) =~= r);
    }
}

/// The normalized tags of a tags field, written back into the field either
/// as `tag tag …` or as `#tag #tag …`, normalize to the same tags.
pub proof fn law_normalized_tags_read_back(input: Seq<char>)
    ensures
        sorted_set(tags_in(space_join(sorted_set(tags_in(input))))) == sorted_set(tags_in(input)),
        sorted_set(tags_in(hash_join(sorted_set(tags_in(input))))) == sorted_set(tags_in(input)),
{
    let all = tags_in(input);
    crate::order::lemma_sorted_set(all);
    let r = sorted_set(all);
    lemma_tags_in_clean(input);
    assert forall|k: int| 0 <= k < r.len() implies clean_tag(#[trigger] r[k]) by {
        assert(all.contains(r[k]));
        let m = choose|m: int| 0 <= m < all.len() && all[m] == r[k];
        assert(clean_tag(all[m]));
    }
    lemma_space_join_reads_back(r);
    lemma_hash_join_reads_back(r);
    lemma_is_sorted_set(r, r);
}

/// The priority after `current` going forward: H, then M, then L, then H.
pub fn next_priority(current: Option<char>) -> (res: char)
    ensures
        res == match current {
            Some('H') => 'M',
            Some('M') => 'L',
            _ => 'H',
        },
{
    match current {
        Some('H') => 'M',
        Some('M') => 'L',
        _ => 'H',
    }
}

/// The priority after `current` going back: L, then M, then H, then L.
pub fn previous_priority(current: Option<char>) -> (res: char)
    ensures
        res == match current {
            Some('L') => 'M',
            Some('M') => 'H',
            _ => 'L',
        },
{
    match current {
        Some('L') => 'M',
        Some('M') => 'H',
        _ => 'L',
    }
}

/// Which field the suggestions are for.
#[derive(Clone, Copy, PartialEq, Eq, Debug, Structural)]
pub enum SuggestionKind {
    Project,
    Tag,
}

/// How well a suggestion fits what was typed (ASCII case ignored): 100 for
/// the whole query, 70 when it starts with it, 35 when it holds it, 5 when
/// nothing is typed, plus 25 when the task's title holds the suggestion.
pub open spec fn score_of(candidate: Seq<char>, query: Seq<char>, title: Seq<char>) -> int {
    let c = to_lower(candidate);
    let q = to_lower(trim(query));
    let t = to_lower(title);
    (if q.len() == 0 {
        5int
    } else if c == q {
        100int
    } else if starts_with(c, q) {
        70int
    } else if contains(c, q) {
        35int
    } else {
        0int
    }) + (if contains(t, c) {
        25int
    } else {
        0int
    })
}

/// Scores a suggestion (see `score_of`).
pub fn suggestion_score(candidate: &str, query: &str, title: &str) -> (score: i32)
    ensures
        score == score_of(candidate@, query@, title@),
{
    let c = lower_chars(&chars_of(candidate));
    let q = lower_chars(&trim_chars(&chars_of(query)));
    let t = lower_chars(&chars_of(title));
    let mut score: i32 = 0;
    if q.len() == 0 {
        score = score + 5;
    } else if crate::text::chars_eq(&c, &q) {
        score = score + 100;
    } else if starts_with_chars(&c, &q) {
        score = score + 70;
    } else if contains_chars(&c, &q) {
        score = score + 35;
    }
    if contains_chars(&t, &c) {
        score = score + 25;
    }
    score
}

/// An item stays among the suggestions when it scores, when nothing is
/// typed, or when it holds the typed text exactly.
pub open spec fn kept(item: Seq<char>, query: Seq<char>, title: Seq<char>) -> bool {
    score_of(item, query, title) > 0 || query.len() == 0 || contains(item, query)
}

/// The kept items with their scores, in order.
pub open spec fn kept_pairs(items: Seq<Seq<char>>, query: Seq<char>, title: Seq<char>) -> Seq<
    (int, Seq<char>),
>
    decreases items.len(),
{
    if items.len() == 0 {
        Seq::empty()
    } else if kept(items.last(), query, title) {
        kept_pairs(items.drop_last(), query, title).push(
            (score_of(items.last(), query, title), items.last()),
        )
    } else {
        kept_pairs(items.drop_last(), query, title)
    }
}

/// The `idea` tag is offered, scored 45, for a task without a due date
/// when the settings ask for it.
pub open spec fn offers_idea(kind: SuggestionKind, suggest_idea: bool, due_is_empty: bool) -> bool {
    kind == SuggestionKind::Tag && suggest_idea && due_is_empty
}

/// Every scored suggestion: the kept items, then `idea` when offered.
pub open spec fn candidates(
    items: Seq<Seq<char>>,
    query: Seq<char>,
    title: Seq<char>,
    idea: bool,
) -> Seq<(int, Seq<char>)> {
    kept_pairs(items, query, title) + if idea {
        seq![(45int, "idea"@)]
    } else {
        Seq::empty()
    }
}

/// The best score `s` has among the candidates, `None` when it is none.
pub open spec fn best_score(c: Seq<(int, Seq<char>)>, s: Seq<char>) -> Option<int>
    decreases c.len(),
{
    if c.len() == 0 {
        None
    } else {
        let r = best_score(c.drop_last(), s);
        if c.last().1 == s {
            match r {
                Some(b) => Some(if b >= c.last().0 {
                    b
                } else {
                    c.last().0
                }),
                None => Some(c.last().0),
            }
        } else {
            r
        }
    }
}

/// When every candidate for `s` carries the score `v`, the best score of
/// `s` is `v` if `s` is a candidate at all.
proof fn lemma_best_uniform(c: Seq<(int, Seq<char>)>, s: Seq<char>, v: int)
    requires
        forall|i: int| 0 <= i < c.len() && (#[trigger] c[i]).1 == s ==> c[i].0 == v,
    ensures
        best_score(c, s) == if exists|i: int| 0 <= i < c.len() && (#[trigger] c[i]).1 == s {
            Some(v)
        } else {
            None::<int>
        },
    decreases c.len(),
{
    if c.len() > 0 {
        let init = c.drop_last();
        assert forall|i: int| 0 <= i < init.len() && (#[trigger] init[i]).1 == s implies init[i].0
            == v by {
            assert(init[i] == c[i]);
        }
        lemma_best_uniform(init, s, v);
        if exists|i: int| 0 <= i < init.len() && (#[trigger] init[i]).1 == s {
            let i = choose|i: int| 0 <= i < init.len() && (#[trigger] init[i]).1 == s;
            assert(c[i] == init[i]);
        }
        if exists|i: int| 0 <= i < c.len() && (#[trigger] c[i]).1 == s {
            let i = choose|i: int| 0 <= i < c.len() && (#[trigger] c[i]).1 == s;
            if i < init.len() {
                assert(init[i] == c[i]);
            }
        }
        assert(c.last() == c[c.len() - 1]);
    }
}

/// Every kept pair carries the item's score for this query and title, and
/// every kept item has a pair.
proof fn lemma_kept_pairs(items: Seq<Seq<char>>, query: Seq<char>, title: Seq<char>)
    ensures
        forall|i: int|
            0 <= i < kept_pairs(items, query, title).len() ==> (#[trigger] kept_pairs(
                items,
                query,
                title,
            )[i]).0 == score_of(kept_pairs(items, query, title)[i].1, query, title),
        forall|k: int|
            0 <= k < items.len() && kept(#[trigger] items[k], query, title) ==> exists|i: int|
                0 <= i < kept_pairs(items, query, title).len() && (#[trigger] kept_pairs(
                    items,
                    query,
                    title,
                )[i]).1 == items[k],
    decreases items.len(),
{
    if items.len() > 0 {
        let init = items.drop_last();
        lemma_kept_pairs(init, query, title);
        let kp = kept_pairs(items, query, title);
        let ki = kept_pairs(init, query, title);
        assert forall|k: int| 0 <= k < items.len() && kept(#[trigger] items[k], query, title) implies exists|i: int|
            0 <= i < kp.len() && (#[trigger] kp[i]).1 == items[k] by {
            if k < init.len() {
                assert(init[k] == items[k]);
                let i = choose|i: int| 0 <= i < ki.len() && (#[trigger] ki[i]).1 == init[k];
                assert(kp[i] == ki[i]);
            } else {
                assert(items[k] == items.last());
                assert(kp[kp.len() - 1].1 == items[k]);
            }
        }
        assert forall|i: int| 0 <= i < kp.len() implies (#[trigger] kp[i]).0 == score_of(
            kp[i].1,
            query,
            title,
        ) by {
            if i < ki.len() {
                assert(kp[i] == ki[i]);
            }
        }
    }
}

/// The ranking scores each item against the title actually typed: an item
/// that scores, or any item while nothing is typed, is a candidate, and
/// its best score is its score for this query and this title (the offered
/// `idea` tag aside).
pub proof fn law_scores_follow_title(
    items: Seq<Seq<char>>,
    query: Seq<char>,
    title: Seq<char>,
    idea: bool,
)
    ensures
        forall|k: int|
            0 <= k < items.len() && (query.len() == 0 || score_of(#[trigger] items[k], query, title)
                > 0) && !(idea && items[k] == "idea"@) ==> best_score(
                candidates(items, query, title, idea),
                items[k],
            ) == Some(score_of(items[k], query, title)),
{
    lemma_kept_pairs(items, query, title);
    let kp = kept_pairs(items, query, title);
    let c = candidates(items, query, title, idea);
    assert forall|k: int|
        0 <= k < items.len() && (query.len() == 0 || score_of(#[trigger] items[k], query, title)
            > 0) && !(idea && items[k] == "idea"@) implies best_score(c, items[k]) == Some(
        score_of(items[k], query, title),
    ) by {
        let t = items[k];
        assert(kept(t, query, title));
        let v = score_of(t, query, title);
        assert forall|i: int| 0 <= i < kp.len() && (#[trigger] kp[i]).1 == t implies kp[i].0 == v by {}
        lemma_best_uniform(kp, t, v);
        let i = choose|i: int| 0 <= i < kp.len() && (#[trigger] kp[i]).1 == t;
        assert(kp[i].1 == t);
        if idea {
            assert(c.drop_last() =~= kp);
            assert(c.last().1 == "idea"@);
        } else {
            assert(c =~= kp);
        }
    }
}

/// With nothing typed, an item the title holds (ASCII case ignored) ranks
/// before every item the title does not hold.
pub proof fn law_title_match_ranks_first(
    items: Seq<Seq<char>>,
    title: Seq<char>,
    idea: bool,
    a: Seq<char>,
    b: Seq<char>,
)
    requires
        items.contains(a),
        items.contains(b),
        contains(to_lower(title), to_lower(a)),
        !contains(to_lower(title), to_lower(b)),
        !(idea && (a == "idea"@ || b == "idea"@)),
    ensures
        ranks_before(candidates(items, Seq::empty(), title, idea), a, b),
{
    law_scores_follow_title(items, Seq::empty(), title, idea);
    let ka = choose|k: int| 0 <= k < items.len() && items[k] == a;
    let kb = choose|k: int| 0 <= k < items.len() && items[k] == b;
    let e = Seq::<char>::empty();
    assert(trim(e) =~= e);
    assert(to_lower(trim(e)).len() == 0);
    assert(score_of(items[ka], e, title) == 30);
    assert(score_of(items[kb], e, title) == 5);
}

/// The length of the UTF-8 encoding, as `str::len` reports it.
pub open spec fn byte_len(s: Seq<char>) -> int {
    (vstd::utf8::encode_utf8(s).len() as usize) as int
}

/// `a` is listed before `b`: it has the better best score; on a tie the
/// shorter one (in bytes); on a tie again the one first in string order.
pub open spec fn ranks_before(c: Seq<(int, Seq<char>)>, a: Seq<char>, b: Seq<char>) -> bool {
    let sa = best_score(c, a)->0;
    let sb = best_score(c, b)->0;
    sa > sb || (sa == sb && (byte_len(a) < byte_len(b) || (byte_len(a) == byte_len(b) && lex_lt(
        a,
        b,
    ))))
}

/// `r` lists the best suggestions among the candidates `c`, in rank order,
/// each once, at most six: every candidate left out ranks after all six.
pub open spec fn is_top_ranked(r: Seq<Seq<char>>, c: Seq<(int, Seq<char>)>) -> bool {
    &&& r.len() <= 6
    &&& forall|i: int| 0 <= i < r.len() ==> best_score(c, #[trigger] r[i]) is Some
    &&& forall|i: int, j: int| 0 <= i < j < r.len() ==> ranks_before(c, #[trigger] r[i], #[trigger] r[j])
    &&& forall|s: Seq<char>|
        best_score(c, s) is Some && !r.contains(s) ==> r.len() == 6 && forall|i: int|
            0 <= i < r.len() ==> ranks_before(c, #[trigger] r[i], s)
}

proof fn lemma_ranks_order(c: Seq<(int, Seq<char>)>, a: Seq<char>, b: Seq<char>)
    ensures
        !ranks_before(c, a, a),
        !(ranks_before(c, a, b) && ranks_before(c, b, a)),
        a != b ==> ranks_before(c, a, b) || ranks_before(c, b, a),
{
    crate::order::lemma_lex_total(a, b);
}

/// The ranked list is fully determined: two lists that both rank the same
/// candidates are the same list.
pub proof fn law_top_ranked_unique(r1: Seq<Seq<char>>, r2: Seq<Seq<char>>, c: Seq<(int, Seq<char>)>)
    requires
        is_top_ranked(r1, c),
        is_top_ranked(r2, c),
    ensures
        r1 == r2,
{
    lemma_top_ranked_prefix(r1, r2, c, 0);
}

proof fn lemma_top_ranked_prefix(
    r1: Seq<Seq<char>>,
    r2: Seq<Seq<char>>,
    c: Seq<(int, Seq<char>)>,
    i: int,
)
    requires
        is_top_ranked(r1, c),
        is_top_ranked(r2, c),
        0 <= i,
        i <= r1.len() && i <= r2.len(),
        forall|k: int| 0 <= k < i ==> r1[k] == r2[k],
    ensures
        r1 == r2,
    decreases 6 - i,
{
    if i < r1.len() && i < r2.len() {
        let a = r1[i];
        let b = r2[i];
        if a != b {
            lemma_ranks_order(c, a, b);
            lemma_one_side(r1, r2, c, i);
            lemma_one_side(r2, r1, c, i);
            assert(false);
        }
        lemma_top_ranked_prefix(r1, r2, c, i + 1);
    } else if i == r1.len() && i == r2.len() {
        assert(r1 =~= r2);
    } else if i == r1.len() {
        lemma_longer(r1, r2, c);
        assert(r1 =~= r2);
    } else {
        lemma_longer(r2, r1, c);
        assert(r1 =~= r2);
    }
}

proof fn lemma_one_side(r1: Seq<Seq<char>>, r2: Seq<Seq<char>>, c: Seq<(int, Seq<char>)>, i: int)
    requires
        is_top_ranked(r1, c),
        is_top_ranked(r2, c),
        0 <= i < r1.len(),
        i < r2.len(),
        forall|k: int| 0 <= k < i ==> r1[k] == r2[k],
        r1[i] != r2[i],
    ensures
        !ranks_before(c, r1[i], r2[i]),
{
    let a = r1[i];
    let b = r2[i];
    lemma_ranks_order(c, a, b);
    if ranks_before(c, a, b) {
        assert(best_score(c, a) is Some);
        if r2.contains(a) {
            let j = choose|j: int| 0 <= j < r2.len() && r2[j] == a;
            if j < i {
                assert(r1[j] == a);
                assert(ranks_before(c, r1[j], r1[i]));
                lemma_ranks_order(c, a, a);
            } else if j > i {
                assert(ranks_before(c, r2[i], r2[j]));
            }
        } else {
            assert(ranks_before(c, r2[i], a));
        }
    }
}

proof fn lemma_longer(r1: Seq<Seq<char>>, r2: Seq<Seq<char>>, c: Seq<(int, Seq<char>)>)
    requires
        is_top_ranked(r1, c),
        is_top_ranked(r2, c),
        r1.len() <= r2.len(),
        forall|k: int| 0 <= k < r1.len() ==> r1[k] == r2[k],
    ensures
        r2.len() == r1.len(),
{
    if r1.len() < r2.len() {
        let i = r1.len() as int;
        let b = r2[i];
        assert(best_score(c, b) is Some);
        if r1.contains(b) {
            let j = choose|j: int| 0 <= j < r1.len() && r1[j] == b;
            assert(r2[j] == b);
            assert(ranks_before(c, r2[j], r2[i]));
            lemma_ranks_order(c, b, b);
        } else {
            assert(r1.len() == 6);
        }
    }
}

struct Ranked {
    score: i32,
    blen: usize,
    text: Vec<char>,
}

spec fn canonical(c: Seq<(int, Seq<char>)>, e: Ranked) -> bool {
    best_score(c, e.text@) == Some(e.score as int) && e.blen == byte_len(e.text@)
}

spec fn key_lt(a: Ranked, b: Ranked) -> bool {
    a.score > b.score || (a.score == b.score && (a.blen < b.blen || (a.blen == b.blen && lex_lt(
        a.text@,
        b.text@,
    ))))
}

proof fn lemma_key_order(a: Ranked, b: Ranked, d: Ranked)
    ensures
        !key_lt(a, a),
        a.text@ != b.text@ ==> key_lt(a, b) || key_lt(b, a),
        !(key_lt(a, b) && key_lt(b, a)),
        key_lt(a, b) && key_lt(b, d) ==> key_lt(a, d),
{
    crate::order::lemma_lex_total(a.text@, b.text@);
    if key_lt(a, b) && key_lt(b, d) && a.score == d.score && a.blen == d.blen {
        crate::order::lemma_lex_trans(a.text@, b.text@, d.text@);
    }
}

fn key_less(a: &Ranked, b: &Ranked) -> (res: bool)
    ensures
        res == key_lt(*a, *b),
{
    a.score > b.score || (a.score == b.score && (a.blen < b.blen || (a.blen == b.blen
        && crate::order::lex_less(&a.text, &b.text))))
}

spec fn pairs(s: Seq<Ranked>) -> Seq<(int, Seq<char>)> {
    Seq::new(s.len(), |k: int| (s[k].score as int, s[k].text@))
}

spec fn lengths_ok(s: Seq<Ranked>) -> bool {
    forall|k: int| 0 <= k < s.len() ==> (#[trigger] s[k]).blen == byte_len(s[k].text@)
}

/// The kept items with their scores and byte lengths, then `idea` when
/// offered.
fn candidate_list(items: &[String], query: &str, title: &str, idea: bool) -> (res: Vec<Ranked>)
    ensures
        pairs(res@) == candidates(string_views(items@), query@, title@, idea),
        lengths_ok(res@),
{
    let ghost its = string_views(items@);
    let qv = chars_of(query);
    let mut res: Vec<Ranked> = Vec::new();
    let mut i: usize = 0;
    assert(its.take(0) =~= Seq::<Seq<char>>::empty());
    assert(pairs(res@) =~= kept_pairs(its.take(0), query@, title@));
    while i < items.len()
        invariant
            i <= items.len(),
            its == string_views(items@),
            qv@ == query@,
            pairs(res@) == kept_pairs(its.take(i as int), query@, title@),
            lengths_ok(res@),
        decreases items.len() - i,
    {
        let item = &items[i];
        assert(its.take(i + 1).drop_last() =~= its.take(i as int));
        assert(its.take(i + 1).last() == item@);
        let score = suggestion_score(item.as_str(), query, title);
        let text = chars_of(item.as_str());
        let keep = score > 0 || query.is_empty() || contains_chars(&text, &qv);
        if keep {
            let ghost before = res@;
            let e = Ranked { score, blen: item.as_str().len(), text };
            res.push(e);
            assert(pairs(res@) =~= pairs(before).push((score as int, item@)));
            assert(res@[res@.len() - 1] == e);
        }
        i = i + 1;
    }
    assert(its.take(items.len() as int) =~= its);
    if idea {
        let ghost before = res@;
        let text = chars_of("idea");
        let e = Ranked { score: 45, blen: "idea".len(), text };
        res.push(e);
        assert(pairs(res@) =~= pairs(before) + seq![(45int, "idea"@)]);
        assert(res@[res@.len() - 1] == e);
    } else {
        assert(pairs(res@) =~= pairs(res@) + Seq::<(int, Seq<char>)>::empty());
    }
    res
}

spec fn distinct_texts(s: Seq<Ranked>) -> bool {
    forall|a: int, b: int| 0 <= a < b < s.len() ==> (#[trigger] s[a]).text@ != (#[trigger] s[b]).text@
}

spec fn has_text(s: Seq<Ranked>, t: Seq<char>) -> bool {
    exists|k: int| 0 <= k < s.len() && (#[trigger] s[k]).text@ == t
}

proof fn lemma_best_step(c: Seq<(int, Seq<char>)>, i: int, s: Seq<char>)
    requires
        0 <= i < c.len(),
    ensures
        best_score(c.take(i + 1), s) == if c[i].1 == s {
            match best_score(c.take(i), s) {
                Some(b) => Some(if b >= c[i].0 {
                    b
                } else {
                    c[i].0
                }),
                None => Some(c[i].0),
            }
        } else {
            best_score(c.take(i), s)
        },
{
    assert(c.take(i + 1).drop_last() =~= c.take(i));
}

/// One entry per candidate text, holding its best score.
fn best_entries(cands: &Vec<Ranked>) -> (res: Vec<Ranked>)
    requires
        lengths_ok(cands@),
    ensures
        forall|k: int| 0 <= k < res.len() ==> canonical(pairs(cands@), #[trigger] res@[k]),
        distinct_texts(res@),
        forall|s: Seq<char>| best_score(pairs(cands@), s) is Some ==> has_text(res@, s),
{
    let ghost c = pairs(cands@);
    let mut res: Vec<Ranked> = Vec::new();
    let mut i: usize = 0;
    assert(c.take(0) =~= Seq::<(int, Seq<char>)>::empty());
    while i < cands.len()
        invariant
            i <= cands.len(),
            c == pairs(cands@),
            lengths_ok(cands@),
            forall|k: int| 0 <= k < res.len() ==> canonical(c.take(i as int), #[trigger] res@[k]),
            distinct_texts(res@),
            forall|s: Seq<char>| best_score(c.take(i as int), s) is Some ==> has_text(res@, s),
        decreases cands.len() - i,
    {
        let cand = &cands[i];
        assert(c[i as int] == (cand.score as int, cand.text@));
        assert(cand.blen == byte_len(cand.text@));
        let mut k: usize = 0;
        while k < res.len() && !crate::text::chars_eq(&res[k].text, &cand.text)
            invariant
                k <= res.len(),
                forall|m: int| 0 <= m < k ==> (#[trigger] res@[m]).text@ != cand.text@,
            decreases res.len() - k,
        {
            k = k + 1;
        }
        let ghost before = res@;
        proof {
            assert forall|s: Seq<char>| s != cand.text@ implies best_score(c.take(i + 1), s)
                == best_score(c.take(i as int), s) by {
                lemma_best_step(c, i as int, s);
            }
            lemma_best_step(c, i as int, cand.text@);
        }
        if k < res.len() {
            let old_score = res[k].score;
            if cand.score > old_score {
                let e = Ranked { score: cand.score, blen: res[k].blen, text: res[k].text.clone() };
                res.set(k, e);
            }
            assert forall|m: int| 0 <= m < res.len() implies canonical(
                c.take(i + 1),
                #[trigger] res@[m],
            ) by {
                if m != k {
                    assert(res@[m] == before[m]);
                    assert(before[m].text@ != before[k as int].text@);
                    assert(canonical(c.take(i as int), before[m]));
                } else {
                    assert(canonical(c.take(i as int), before[m]));
                }
            }
            assert forall|a: int, b: int| 0 <= a < b < res.len() implies (#[trigger] res@[a]).text@
                != (#[trigger] res@[b]).text@ by {
                assert(res@[a].text@ == before[a].text@);
                assert(res@[b].text@ == before[b].text@);
            }
            assert forall|s: Seq<char>| best_score(c.take(i + 1), s) is Some implies has_text(
                res@,
                s,
            ) by {
                if s == cand.text@ {
                    assert(res@[k as int].text@ == s);
                } else {
                    assert(best_score(c.take(i + 1), s) == best_score(c.take(i as int), s));
                    assert(has_text(before, s));
                    let m = choose|m: int| 0 <= m < before.len() && (#[trigger] before[m]).text@ == s;
                    assert(res@[m].text@ == before[m].text@);
                    assert(res@[m].text@ == s);
                }
            }
        } else {
            assert(!has_text(before, cand.text@));
            assert(best_score(c.take(i as int), cand.text@) is None);
            let e = Ranked { score: cand.score, blen: cand.blen, text: cand.text.clone() };
            res.push(e);
            assert(res@[before.len() as int] == e);
            assert forall|m: int| 0 <= m < res.len() implies canonical(
                c.take(i + 1),
                #[trigger] res@[m],
            ) by {
                if m < before.len() {
                    assert(res@[m] == before[m]);
                    assert(canonical(c.take(i as int), before[m]));
                    assert(before[m].text@ != cand.text@);
                }
            }
            assert forall|a: int, b: int| 0 <= a < b < res.len() implies (#[trigger] res@[a]).text@
                != (#[trigger] res@[b]).text@ by {
                assert(res@[a] == before[a]);
                if b < before.len() {
                    assert(res@[b] == before[b]);
                }
            }
            assert forall|s: Seq<char>| best_score(c.take(i + 1), s) is Some implies has_text(
                res@,
                s,
            ) by {
                if s == cand.text@ {
                    assert(res@[before.len() as int].text@ == s);
                } else {
                    assert(best_score(c.take(i + 1), s) == best_score(c.take(i as int), s));
                    assert(has_text(before, s));
                    let m = choose|m: int| 0 <= m < before.len() && (#[trigger] before[m]).text@ == s;
                    assert(res@[m].text@ == before[m].text@);
                    assert(res@[m].text@ == s);
                }
            }
        }
        i = i + 1;
    }
    assert(c.take(cands.len() as int) =~= c);
    res
}

spec fn same_entry(a: Ranked, b: Ranked) -> bool {
    a.score == b.score && a.blen == b.blen && a.text@ == b.text@
}

spec fn key_sorted(s: Seq<Ranked>) -> bool {
    forall|a: int, b: int| 0 <= a < b < s.len() ==> key_lt(#[trigger] s[a], #[trigger] s[b])
}

/// Inserts `e` at its place in a list in rank order; returns the place.
fn insert_ranked(res: &mut Vec<Ranked>, e: Ranked) -> (p: usize)
    requires
        key_sorted(old(res)@),
        forall|k: int| 0 <= k < old(res).len() ==> (#[trigger] old(res)@[k]).text@ != e.text@,
    ensures
        key_sorted(final(res)@),
        p <= old(res).len(),
        final(res)@ == old(res)@.insert(p as int, e),
{
    let ghost before = res@;
    let mut p: usize = 0;
    while p < res.len() && key_less(&res[p], &e)
        invariant
            p <= res.len(),
            before == res@,
            forall|k: int| 0 <= k < p ==> key_lt(#[trigger] before[k], e),
        decreases res.len() - p,
    {
        p = p + 1;
    }
    if p < res.len() {
        proof {
            lemma_key_order(before[p as int], e, e);
        }
        assert(key_lt(e, before[p as int]));
    }
    let ghost ev = e;
    res.insert(p, e);
    let ghost nv = res@;
    assert forall|a: int, b: int| 0 <= a < b < nv.len() implies key_lt(
        #[trigger] nv[a],
        #[trigger] nv[b],
    ) by {
        if b < p {
            assert(nv[a] == before[a] && nv[b] == before[b]);
        } else if b == p {
            assert(nv[a] == before[a]);
        } else if a == p {
            assert(nv[b] == before[b - 1]);
            if b - 1 > p {
                lemma_key_order(ev, before[p as int], before[b - 1]);
            }
        } else if a < p {
            assert(nv[a] == before[a] && nv[b] == before[b - 1]);
            lemma_key_order(before[a], ev, before[b - 1]);
        } else {
            assert(nv[a] == before[a - 1] && nv[b] == before[b - 1]);
        }
    }
    p
}

spec fn listed(order: Seq<int>, m: int) -> bool {
    exists|k: int| 0 <= k < order.len() && #[trigger] order[k] == m
}

/// The entries in rank order: `order[k]` is the position in `es` of the
/// `k`-th entry of the result.
fn sort_entries(es: &Vec<Ranked>) -> (out: (Vec<Ranked>, Ghost<Seq<int>>))
    requires
        distinct_texts(es@),
    ensures
        key_sorted(out.0@),
        out.1@.len() == out.0.len(),
        forall|k: int|
            0 <= k < out.0.len() ==> 0 <= #[trigger] out.1@[k] < es.len() && same_entry(
                out.0@[k],
                es@[out.1@[k]],
            ),
        forall|m: int| 0 <= m < es.len() ==> #[trigger] listed(out.1@, m),
{
    let mut res: Vec<Ranked> = Vec::new();
    let ghost mut order: Seq<int> = Seq::empty();
    let mut i: usize = 0;
    while i < es.len()
        invariant
            i <= es.len(),
            distinct_texts(es@),
            key_sorted(res@),
            order.len() == res.len(),
            forall|k: int|
                0 <= k < res.len() ==> 0 <= #[trigger] order[k] < i && same_entry(
                    res@[k],
                    es@[order[k]],
                ),
            forall|m: int| 0 <= m < i ==> #[trigger] listed(order, m),
        decreases es.len() - i,
    {
        let e = Ranked { score: es[i].score, blen: es[i].blen, text: es[i].text.clone() };
        let ghost before = res@;
        let ghost old_order = order;
        assert forall|k: int| 0 <= k < before.len() implies (#[trigger] before[k]).text@ != e.text@ by {
            assert(0 <= old_order[k] < i);
            assert(es@[old_order[k]].text@ != es@[i as int].text@);
        }
        let ghost ev = e;
        let p = insert_ranked(&mut res, e);
        proof {
            order = old_order.insert(p as int, i as int);
            assert forall|k: int| 0 <= k < res.len() implies 0 <= #[trigger] order[k] < i + 1
                && same_entry(res@[k], es@[order[k]]) by {
                if k < p {
                    assert(order[k] == old_order[k] && res@[k] == before[k]);
                } else if k == p {
                    assert(order[k] == i && res@[k] == ev);
                } else {
                    assert(order[k] == old_order[k - 1] && res@[k] == before[k - 1]);
                }
            }
            assert forall|m: int| 0 <= m < i + 1 implies #[trigger] listed(order, m) by {
                if m == i {
                    assert(order[p as int] == m);
                } else {
                    assert(listed(old_order, m));
                    let k = choose|k: int| 0 <= k < old_order.len() && #[trigger] old_order[k] == m;
                    if k < p {
                        assert(order[k] == m);
                    } else {
                        assert(order[k + 1] == m);
                    }
                }
            }
        }
        i = i + 1;
    }
    (res, Ghost(order))
}

/// The suggestions to offer for a field: the items that score or hold the
/// typed text (all of them when nothing is typed), plus `idea` for the tags
/// of a task without a due date when the settings ask for it; ranked by
/// best score, then byte length, then string order; each once; at most six.
pub fn ranked_suggestions(
    items: &[String],
    query: &str,
    title: &str,
    kind: SuggestionKind,
    config: &LentilConfig,
    due_is_empty: bool,
) -> (res: Vec<String>)
    ensures
        is_top_ranked(
            string_views(res@),
            candidates(
                string_views(items@),
                query@,
                title@,
                offers_idea(kind, config.suggest_idea_without_due, due_is_empty),
            ),
        ),
{
    let idea = kind == SuggestionKind::Tag && config.suggest_idea_without_due && due_is_empty;
    let cands = candidate_list(items, query, title, idea);
    let ghost c = pairs(cands@);
    let es = best_entries(&cands);
    let (sorted, Ghost(order)) = sort_entries(&es);
    let n: usize = if sorted.len() < 6 {
        sorted.len()
    } else {
        6
    };
    let mut res: Vec<String> = Vec::new();
    let mut i: usize = 0;
    while i < n
        invariant
            i <= n <= sorted.len(),
            res.len() == i,
            forall|k: int| 0 <= k < i ==> (#[trigger] res@[k])@ == sorted@[k].text@,
        decreases n - i,
    {
        res.push(string_from_chars(&sorted[i].text));
        i = i + 1;
    }
    let ghost r = string_views(res@);
    proof {
        assert forall|k: int| 0 <= k < sorted.len() implies canonical(c, #[trigger] sorted@[k]) by {
            assert(0 <= order[k] < es.len());
            assert(canonical(c, es@[order[k]]));
        }
        assert forall|k: int| 0 <= k < r.len() implies best_score(c, #[trigger] r[k]) is Some by {
            assert(canonical(c, sorted@[k]));
        }
        assert forall|a: int, b: int| 0 <= a < b < r.len() implies ranks_before(
            c,
            #[trigger] r[a],
            #[trigger] r[b],
        ) by {
            assert(canonical(c, sorted@[a]) && canonical(c, sorted@[b]));
            assert(key_lt(sorted@[a], sorted@[b]));
        }
        assert forall|s: Seq<char>| best_score(c, s) is Some && !r.contains(s) implies r.len() == 6
            && forall|a: int| 0 <= a < r.len() ==> ranks_before(c, #[trigger] r[a], s) by {
            assert(has_text(es@, s));
            let m = choose|m: int| 0 <= m < es.len() && (#[trigger] es@[m]).text@ == s;
            assert(listed(order, m));
            let k = choose|k: int| 0 <= k < order.len() && #[trigger] order[k] == m;
            assert(same_entry(sorted@[k], es@[m]));
            if k < n {
                assert(r[k] == s);
            }
            assert(k >= n);
            assert forall|a: int| 0 <= a < r.len() implies ranks_before(c, #[trigger] r[a], s) by {
                assert(canonical(c, sorted@[a]) && canonical(c, sorted@[k]));
                assert(key_lt(sorted@[a], sorted@[k]));
            }
        }
    }
    res
}

/// The suggestion at `index`, when there is one and it is not empty.
pub open spec fn selected_of(index: int, suggestions: Seq<Seq<char>>) -> Option<Seq<char>> {
    if 0 <= index < suggestions.len() && suggestions[index].len() > 0 {
        Some(suggestions[index])
    } else {
        None
    }
}

/// The highlighted suggestion (see `selected_of`).
pub fn selected_suggestion(selected_index: usize, suggestions: &[String]) -> (res: Option<String>)
    ensures
        match selected_of(selected_index as int, string_views(suggestions@)) {
            Some(s) => res is Some && res->0@ == s,
            None => res is None,
        },
{
    if selected_index < suggestions.len() {
        assert(string_views(suggestions@)[selected_index as int]
            == suggestions@[selected_index as int]@);
        if !suggestions[selected_index].as_str().is_empty() {
            return Some(suggestions[selected_index].clone());
        }
    }
    None
}

/// What the field holds after Enter accepts the highlighted suggestion: a
/// project field takes the suggestion (or keeps its own text, trimmed,
/// when none is highlighted); a tags field gets it merged in.
pub open spec fn applied(
    selected: Option<Seq<char>>,
    current: Seq<char>,
    kind: SuggestionKind,
) -> Seq<char> {
    match kind {
        SuggestionKind::Project => match selected {
            Some(s) => s,
            None => trim(current),
        },
        SuggestionKind::Tag => merged_tags(current, selected),
    }
}

/// Accepts the highlighted suggestion into the field (see `applied`).
pub fn apply_selected_suggestion(
    selected_index: usize,
    suggestions: &[String],
    current_value: &str,
    kind: SuggestionKind,
) -> (res: String)
    ensures
        res@ == applied(
            selected_of(selected_index as int, string_views(suggestions@)),
            current_value@,
            kind,
        ),
{
    let picked = selected_suggestion(selected_index, suggestions);
    match kind {
        SuggestionKind::Project => match picked {
            Some(p) => p,
            None => crate::text::trimmed(current_value),
        },
        SuggestionKind::Tag => match picked {
            Some(p) => merge_tag_input(current_value, Some(p.as_str())),
            None => merge_tag_input(current_value, None),
        },
    }
}

} // verus!
