//! Character-level text handling shared by the configuration reader, the
//! due-date parser and the suggestion ranking: trimming, splitting, searching,
//! ASCII case folding, and the conversions between `str`/`String` and the
//! `Vec<char>` form the rest of the library works on.
use vstd::prelude::*;

verus! {

/// The Unicode `White_Space` property, the one `char::is_whitespace` and
/// `str::trim` use.
pub open spec fn is_ws(c: char) -> bool {
    let n = c as u32;
    ||| 0x09 <= n <= 0x0D
    ||| n == 0x20
    ||| n == 0x85
    ||| n == 0xA0
    ||| n == 0x1680
    ||| 0x2000 <= n <= 0x200A
    ||| n == 0x2028
    ||| n == 0x2029
    ||| n == 0x202F
    ||| n == 0x205F
    ||| n == 0x3000
}

/// Whether `c` is a whitespace character.
pub fn is_whitespace(c: char) -> (res: bool)
    ensures
        res == is_ws(c),
{
    let n = c as u32;
    (0x09 <= n && n <= 0x0D) || n == 0x20 || n == 0x85 || n == 0xA0 || n == 0x1680 || (0x2000
        <= n && n <= 0x200A) || n == 0x2028 || n == 0x2029 || n == 0x202F || n == 0x205F || n
        == 0x3000
}

/// The text without its leading whitespace.
pub open spec fn trim_start(s: Seq<char>) -> Seq<char>
    decreases s.len(),
{
    if s.len() > 0 && is_ws(s[0]) {
        trim_start(s.drop_first())
    } else {
        s
    }
}

/// The text without its trailing whitespace.
pub open spec fn trim_end(s: Seq<char>) -> Seq<char>
    decreases s.len(),
{
    if s.len() > 0 && is_ws(s.last()) {
        trim_end(s.drop_last())
    } else {
        s
    }
}

/// The text without leading and trailing whitespace (`str::trim`).
pub open spec fn trim(s: Seq<char>) -> Seq<char> {
    trim_end(trim_start(s))
}

/// Collects the characters of a string slice, in order.
pub fn chars_of(s: &str) -> (res: Vec<char>)
    ensures
        res@ == s@,
{
    broadcast use vstd::string::group_string_axioms;

    let mut res: Vec<char> = Vec::new();
    for c in it: s.chars()
        invariant
            it.seq() == s@,
            res@ == it.seq().take(it.index() as int),
    {
        res.push(c);
    }
    res
}

/// Builds an owned string from characters. Trusted: the body collects the
/// characters into a `String` through std's `FromIterator<char> for
/// String`; the contract claims the string holds exactly these characters,
/// in order, which is what std documents for it.
#[verifier::external_body]
pub fn string_from_chars(chars: &Vec<char>) -> (res: String)
    ensures
        res@ == chars@,
{
    chars.iter().collect()
}

/// Copies the characters `from..to` of `v`.
pub fn copy_range(v: &Vec<char>, from: usize, to: usize) -> (res: Vec<char>)
    requires
        from <= to <= v.len(),
    ensures
        res@ == v@.subrange(from as int, to as int),
{
    let mut res: Vec<char> = Vec::new();
    let mut i = from;
    while i < to
        invariant
            from <= i <= to <= v.len(),
            res@ == v@.subrange(from as int, i as int),
        decreases to - i,
    {
        res.push(v[i]);
        i = i + 1;
    }
    res
}

/// Removes leading and trailing whitespace.
pub fn trim_chars(v: &Vec<char>) -> (res: Vec<char>)
    ensures
        res@ == trim(v@),
{
    let ghost s = v@;
    let mut i: usize = 0;
    assert(s.skip(0) =~= s);
    while i < v.len() && is_whitespace(v[i])
        invariant
            i <= v.len(),
            s == v@,
            trim_start(s) == trim_start(s.skip(i as int)),
        decreases v.len() - i,
    {
        assert(s.skip(i as int).drop_first() =~= s.skip(i + 1));
        i = i + 1;
    }
    assert(trim_start(s) == s.subrange(i as int, s.len() as int)) by {
        if i < v.len() {
            assert(!is_ws(s.skip(i as int)[0]));
        } else {
            assert(s.skip(i as int).len() == 0);
        }
        assert(s.skip(i as int) =~= s.subrange(i as int, s.len() as int));
    }
    let mut j: usize = v.len();
    while j > i && is_whitespace(v[j - 1])
        invariant
            i <= j <= v.len(),
            s == v@,
            trim(s) == trim_end(s.subrange(i as int, j as int)),
        decreases j,
    {
        assert(s.subrange(i as int, j as int).drop_last() =~= s.subrange(i as int, j - 1));
        j = j - 1;
    }
    copy_range(v, i, j)
}

/// Whether two character sequences are equal.
pub fn chars_eq(a: &Vec<char>, b: &Vec<char>) -> (res: bool)
    ensures
        res == (a@ == b@),
{
    if a.len() != b.len() {
        return false;
    }
    let mut i: usize = 0;
    while i < a.len()
        invariant
            a.len() == b.len(),
            i <= a.len(),
            forall|k: int| 0 <= k < i ==> a@[k] == b@[k],
        decreases a.len() - i,
    {
        if a[i] != b[i] {
            return false;
        }
        i = i + 1;
    }
    assert(a@ =~= b@);
    true
}

/// What separates the pieces when a text is split.
#[derive(Clone, Copy, PartialEq, Eq, Debug)]
pub enum Sep {
    /// One given character.
    Char(char),
    /// Any whitespace character.
    Whitespace,
    /// Any whitespace character or a comma.
    WhitespaceOrComma,
}

/// Whether `c` separates pieces under `sep`.
pub open spec fn is_sep(sep: Sep, c: char) -> bool {
    match sep {
        Sep::Char(d) => c == d,
        Sep::Whitespace => is_ws(c),
        Sep::WhitespaceOrComma => is_ws(c) || c == ',',
    }
}

fn is_sep_exec(sep: Sep, c: char) -> (res: bool)
    ensures
        res == is_sep(sep, c),
{
    match sep {
        Sep::Char(d) => c == d,
        Sep::Whitespace => is_whitespace(c),
        Sep::WhitespaceOrComma => is_whitespace(c) || c == ',',
    }
}

/// The pieces between separators, empty pieces included, as `str::split`
/// gives them: a text with `n` separators has `n + 1` pieces.
pub open spec fn split_by(s: Seq<char>, sep: Sep) -> Seq<Seq<char>>
    decreases s.len(),
{
    if s.len() == 0 {
        seq![Seq::empty()]
    } else {
        let p = split_by(s.drop_last(), sep);
        if is_sep(sep, s.last()) {
            p.push(Seq::empty())
        } else {
            p.update(p.len() - 1, p.last().push(s.last()))
        }
    }
}

/// A text always splits into at least one piece.
pub proof fn lemma_split_by_nonempty(s: Seq<char>, sep: Sep)
    ensures
        split_by(s, sep).len() >= 1,
    decreases s.len(),
{
    if s.len() > 0 {
        lemma_split_by_nonempty(s.drop_last(), sep);
    }
}

/// The views of a sequence of character vectors.
pub open spec fn views(v: Seq<Vec<char>>) -> Seq<Seq<char>> {
    Seq::new(v.len(), |i: int| v[i]@)
}

/// Splits `v` at every separator.
pub fn split_chars(v: &Vec<char>, sep: Sep) -> (res: Vec<Vec<char>>)
    ensures
        views(res@) == split_by(v@, sep),
{
    let ghost s = v@;
    let mut pieces: Vec<Vec<char>> = Vec::new();
    let mut cur: Vec<char> = Vec::new();
    let mut i: usize = 0;
    assert(s.take(0) =~= Seq::<char>::empty());
    assert(views(pieces@).push(cur@) =~= split_by(s.take(0), sep));
    while i < v.len()
        invariant
            i <= v.len(),
            s == v@,
            views(pieces@).push(cur@) == split_by(s.take(i as int), sep),
        decreases v.len() - i,
    {
        let c = v[i];
        assert(s.take(i + 1).drop_last() =~= s.take(i as int));
        assert(s.take(i + 1).last() == c);
        proof {
            lemma_split_by_nonempty(s.take(i as int), sep);
        }
        if is_sep_exec(sep, c) {
            let ghost old_pieces = views(pieces@);
            let ghost old_cur = cur@;
            let done = cur;
            pieces.push(done);
            cur = Vec::new();
            assert(views(pieces@) =~= old_pieces.push(old_cur));
            assert(views(pieces@).push(cur@) =~= split_by(s.take(i + 1), sep));
        } else {
            let ghost old_pieces = views(pieces@);
            cur.push(c);
            assert(views(pieces@).push(cur@) =~= split_by(s.take(i + 1), sep));
        }
        i = i + 1;
    }
    assert(s.take(v.len() as int) =~= s);
    let ghost before = views(pieces@);
    pieces.push(cur);
    assert(views(pieces@) =~= before.push(pieces@.last()@));
    pieces
}

/// Splitting at `c` a text joined by a `c` gives the pieces of both parts.
pub proof fn lemma_split_concat(a: Seq<char>, b: Seq<char>, sep: Sep, c: char)
    requires
        is_sep(sep, c),
    ensures
        split_by(a + seq![c] + b, sep) == split_by(a, sep) + split_by(b, sep),
    decreases b.len(),
{
    lemma_split_by_nonempty(a, sep);
    if b.len() == 0 {
        assert(a + seq![c] + b =~= a.push(c));
        assert((a + seq![c] + b).drop_last() =~= a);
        assert(split_by(b, sep) =~= seq![Seq::<char>::empty()]);
        assert(split_by(a, sep).push(Seq::empty()) =~= split_by(a, sep) + split_by(b, sep));
    } else {
        let b2 = b.drop_last();
        lemma_split_concat(a, b2, sep, c);
        lemma_split_by_nonempty(b2, sep);
        assert((a + seq![c] + b).drop_last() =~= a + seq![c] + b2);
        assert((a + seq![c] + b).last() == b.last());
        let pa = split_by(a, sep);
        let pb = split_by(b2, sep);
        if is_sep(sep, b.last()) {
            assert((pa + pb).push(Seq::empty()) =~= pa + pb.push(Seq::empty()));
        } else {
            assert((pa + pb).update((pa + pb).len() - 1, (pa + pb).last().push(b.last())) =~= pa
                + pb.update(pb.len() - 1, pb.last().push(b.last())));
        }
    }
}

/// No piece of a split holds a separator.
pub proof fn lemma_split_pieces_no_sep(s: Seq<char>, sep: Sep)
    ensures
        forall|k: int, i: int|
            0 <= k < split_by(s, sep).len() && 0 <= i < split_by(s, sep)[k].len() ==> !is_sep(
                sep,
                #[trigger] split_by(s, sep)[k][i],
            ),
    decreases s.len(),
{
    if s.len() > 0 {
        let p = split_by(s.drop_last(), sep);
        lemma_split_pieces_no_sep(s.drop_last(), sep);
        lemma_split_by_nonempty(s.drop_last(), sep);
        let q = split_by(s, sep);
        assert forall|k: int, i: int| 0 <= k < q.len() && 0 <= i < q[k].len() implies !is_sep(
            sep,
            #[trigger] q[k][i],
        ) by {
            if !is_sep(sep, s.last()) && k == p.len() - 1 {
                if i < p[k].len() {
                    assert(q[k][i] == p[k][i]);
                }
            } else if k < p.len() {
                assert(q[k] == p[k]);
            }
        }
    }
}

/// A text without separators is a single piece.
pub proof fn lemma_split_no_sep(s: Seq<char>, sep: Sep)
    requires
        forall|i: int| 0 <= i < s.len() ==> !is_sep(sep, #[trigger] s[i]),
    ensures
        split_by(s, sep) == seq![s],
    decreases s.len(),
{
    if s.len() == 0 {
        assert(s =~= Seq::<char>::empty());
        assert(split_by(s, sep) =~= seq![s]);
    } else {
        assert forall|i: int| 0 <= i < s.drop_last().len() implies !is_sep(
            sep,
            #[trigger] s.drop_last()[i],
        ) by {
            assert(s.drop_last()[i] == s[i]);
        }
        lemma_split_no_sep(s.drop_last(), sep);
        assert(!is_sep(sep, s[s.len() - 1]));
        assert(s.drop_last().push(s.last()) =~= s);
        assert(split_by(s, sep) =~= seq![s]);
    }
}

/// `i` is the position of the first `c` in `s`.
pub open spec fn first_at(s: Seq<char>, c: char, i: int) -> bool {
    &&& 0 <= i < s.len()
    &&& s[i] == c
    &&& forall|k: int| 0 <= k < i ==> s[k] != c
}

/// The text before and after the first `c`, as `str::split_once` gives it.
pub open spec fn split_once(s: Seq<char>, c: char) -> Option<(Seq<char>, Seq<char>)> {
    if exists|i: int| first_at(s, c, i) {
        let i = choose|i: int| first_at(s, c, i);
        Some((s.take(i), s.skip(i + 1)))
    } else {
        None
    }
}

/// Splits `v` at its first `c`.
pub fn split_once_chars(v: &Vec<char>, c: char) -> (res: Option<(Vec<char>, Vec<char>)>)
    ensures
        match res {
            Some((a, b)) => split_once(v@, c) == Some((a@, b@)),
            None => split_once(v@, c) is None,
        },
{
    let mut i: usize = 0;
    while i < v.len()
        invariant
            i <= v.len(),
            forall|k: int| 0 <= k < i ==> v@[k] != c,
        decreases v.len() - i,
    {
        if v[i] == c {
            assert(first_at(v@, c, i as int));
            let ghost j = choose|j: int| first_at(v@, c, j);
            assert(j == i) by {
                if j < i {
                    assert(v@[j] != c);
                } else if j > i {
                    assert(v@[i as int] != c);
                }
            }
            let a = copy_range(v, 0, i);
            let b = copy_range(v, i + 1, v.len());
            assert(a@ =~= v@.take(i as int));
            assert(b@ =~= v@.skip(i + 1));
            return Some((a, b));
        }
        i = i + 1;
    }
    assert(!exists|j: int| first_at(v@, c, j));
    None
}

/// Appends the characters of `s` to `v`.
pub fn append_chars(v: &mut Vec<char>, s: &Vec<char>)
    ensures
        final(v)@ == old(v)@ + s@,
{
    let ghost start = v@;
    let mut i: usize = 0;
    while i < s.len()
        invariant
            i <= s.len(),
            v@ == start + s@.take(i as int),
        decreases s.len() - i,
    {
        v.push(s[i]);
        i = i + 1;
        assert(v@ =~= start + s@.take(i as int));
    }
    assert(s@.take(s.len() as int) =~= s@);
}

/// The pieces that are not empty, in order.
pub open spec fn non_empty(pieces: Seq<Seq<char>>) -> Seq<Seq<char>>
    decreases pieces.len(),
{
    if pieces.len() == 0 {
        pieces
    } else if pieces.last().len() == 0 {
        non_empty(pieces.drop_last())
    } else {
        non_empty(pieces.drop_last()).push(pieces.last())
    }
}

/// The whitespace-separated words of a text (`str::split_whitespace`).
pub open spec fn words(s: Seq<char>) -> Seq<Seq<char>> {
    non_empty(split_by(s, Sep::Whitespace))
}

/// Drops the empty pieces.
pub fn non_empty_pieces(pieces: Vec<Vec<char>>) -> (res: Vec<Vec<char>>)
    ensures
        views(res@) == non_empty(views(pieces@)),
{
    let ghost ps = views(pieces@);
    let mut res: Vec<Vec<char>> = Vec::new();
    let mut i: usize = 0;
    assert(ps.take(0) =~= Seq::<Seq<char>>::empty());
    while i < pieces.len()
        invariant
            i <= pieces.len(),
            ps == views(pieces@),
            views(res@) == non_empty(ps.take(i as int)),
        decreases pieces.len() - i,
    {
        assert(ps.take(i + 1).drop_last() =~= ps.take(i as int));
        assert(ps.take(i + 1).last() == pieces@[i as int]@);
        if pieces[i].len() > 0 {
            let ghost before = views(res@);
            res.push(pieces[i].clone());
            assert(views(res@) =~= before.push(pieces@[i as int]@));
        }
        i = i + 1;
    }
    assert(ps.take(pieces.len() as int) =~= ps);
    res
}

/// The whitespace-separated words of `v`.
pub fn words_chars(v: &Vec<char>) -> (res: Vec<Vec<char>>)
    ensures
        views(res@) == words(v@),
{
    non_empty_pieces(split_chars(v, Sep::Whitespace))
}

/// Whether a string is empty or only whitespace.
pub fn is_blank(s: &str) -> (res: bool)
    ensures
        res == (trim(s@).len() == 0),
{
    trim_chars(&chars_of(s)).len() == 0
}

/// A string without leading and trailing whitespace (`str::trim`).
pub fn trimmed(s: &str) -> (res: String)
    ensures
        res@ == trim(s@),
{
    string_from_chars(&trim_chars(&chars_of(s)))
}

/// `c` in ASCII lower case (`char::to_ascii_lowercase`).
pub open spec fn lower_char(c: char) -> char {
    if 65 <= c as u32 <= 90 {
        ((c as u32) + 32) as char
    } else {
        c
    }
}

/// `s` in ASCII lower case (`str::to_ascii_lowercase`).
pub open spec fn to_lower(s: Seq<char>) -> Seq<char> {
    Seq::new(s.len(), |i: int| lower_char(s[i]))
}

/// `v` in ASCII lower case.
pub fn lower_chars(v: &Vec<char>) -> (res: Vec<char>)
    ensures
        res@ == to_lower(v@),
{
    let mut res: Vec<char> = Vec::new();
    let mut i: usize = 0;
    while i < v.len()
        invariant
            i <= v.len(),
            res@ == to_lower(v@.take(i as int)),
        decreases v.len() - i,
    {
        let c = v[i];
        let n = c as u32;
        let l = if 65 <= n && n <= 90 {
            ((n + 32) as u8) as char
        } else {
            c
        };
        res.push(l);
        i = i + 1;
        assert(res@ =~= to_lower(v@.take(i as int)));
    }
    assert(v@.take(v.len() as int) =~= v@);
    res
}

/// `p` occurs in `s` starting at `i`.
pub open spec fn occurs_at(s: Seq<char>, p: Seq<char>, i: int) -> bool {
    0 <= i && i + p.len() <= s.len() && s.subrange(i, i + p.len()) == p
}

/// `s` starts with `p` (`str::starts_with`).
pub open spec fn starts_with(s: Seq<char>, p: Seq<char>) -> bool {
    occurs_at(s, p, 0)
}

/// `p` occurs somewhere in `s` (`str::contains`); the empty text occurs in
/// every text.
pub open spec fn contains(s: Seq<char>, p: Seq<char>) -> bool {
    exists|i: int| occurs_at(s, p, i)
}

/// Whether `p` occurs in `s` starting at `i`.
pub fn occurs_at_exec(s: &Vec<char>, p: &Vec<char>, i: usize) -> (res: bool)
    ensures
        res == occurs_at(s@, p@, i as int),
{
    if p.len() > s.len() || i > s.len() - p.len() {
        return false;
    }
    let mut k: usize = 0;
    while k < p.len()
        invariant
            k <= p.len(),
            i + p.len() <= s.len(),
            forall|j: int| 0 <= j < k ==> s@[i + j] == p@[j],
        decreases p.len() - k,
    {
        if s[i + k] != p[k] {
            assert(s@.subrange(i as int, i + p.len())[k as int] != p@[k as int]);
            return false;
        }
        k = k + 1;
    }
    assert(s@.subrange(i as int, i + p.len()) =~= p@);
    true
}

/// Whether `s` starts with `p`.
pub fn starts_with_chars(s: &Vec<char>, p: &Vec<char>) -> (res: bool)
    ensures
        res == starts_with(s@, p@),
{
    occurs_at_exec(s, p, 0)
}

/// Whether `p` occurs in `s`.
pub fn contains_chars(s: &Vec<char>, p: &Vec<char>) -> (res: bool)
    ensures
        res == contains(s@, p@),
{
    let mut i: usize = 0;
    while i < s.len()
        invariant
            i <= s.len(),
            forall|j: int| 0 <= j < i ==> !occurs_at(s@, p@, j),
        decreases s.len() - i,
    {
        if occurs_at_exec(s, p, i) {
            return true;
        }
        i = i + 1;
    }
    if occurs_at_exec(s, p, i) {
        return true;
    }
    assert forall|j: int| !occurs_at(s@, p@, j) by {
        if 0 <= j && j + p@.len() <= s@.len() {
            assert(j <= s.len());
        }
    }
    false
}

} // verus!
