//! Text: white space, pieces and words of a line, searching, and order.

use vstd::prelude::*;

verus! {

/// The texts that a list of strings holds.
pub open spec fn texts(list: Seq<String>) -> Seq<Seq<char>> {
    list.map_values(|s: String| s@)
}

/// Unicode's property White_Space.
pub open spec fn is_white_space(c: char) -> bool {
    let n = c as u32;
    ||| 0x9 <= n <= 0xd
    ||| n == 0x20
    ||| n == 0x85
    ||| n == 0xa0
    ||| n == 0x1680
    ||| 0x2000 <= n <= 0x200a
    ||| n == 0x2028
    ||| n == 0x2029
    ||| n == 0x202f
    ||| n == 0x205f
    ||| n == 0x3000
}

/// Whether a character is white space.
pub fn white_space(c: char) -> (b: bool)
    ensures
        b == is_white_space(c),
{
    let n: u32 = c as u32;
    (0x9 <= n && n <= 0xd) || n == 0x20 || n == 0x85 || n == 0xa0 || n == 0x1680 || (0x2000 <= n
        && n <= 0x200a) || n == 0x2028 || n == 0x2029 || n == 0x202f || n == 0x205f || n == 0x3000
}

/// A text without the white space at its start.
pub open spec fn trim_start(s: Seq<char>) -> Seq<char>
    decreases s.len(),
{
    if s.len() > 0 && is_white_space(s[0]) {
        trim_start(s.drop_first())
    } else {
        s
    }
}

/// A text without the white space at its end.
pub open spec fn trim_end(s: Seq<char>) -> Seq<char>
    decreases s.len(),
{
    if s.len() > 0 && is_white_space(s.last()) {
        trim_end(s.drop_last())
    } else {
        s
    }
}

/// A text without the white space at both its ends.
pub open spec fn trimmed(s: Seq<char>) -> Seq<char> {
    trim_end(trim_start(s))
}

/// Whether a text has nothing but white space.
pub open spec fn is_blank(s: Seq<char>) -> bool {
    trimmed(s).len() == 0
}

proof fn lemma_trim_start_ends(s: Seq<char>)
    ensures
        trim_start(s).len() > 0 ==> !is_white_space(trim_start(s)[0]) && s.len() > 0
            && trim_start(s).last() == s.last(),
        s.len() > 0 && !is_white_space(s.last()) ==> trim_start(s).len() > 0,
    decreases s.len(),
{
    if s.len() > 0 && is_white_space(s[0]) {
        lemma_trim_start_ends(s.drop_first());
    }
}

proof fn lemma_trim_end_ends(s: Seq<char>)
    ensures
        trim_end(s).len() > 0 ==> !is_white_space(trim_end(s).last()) && s.len() > 0 && trim_end(
            s,
        )[0] == s[0],
    decreases s.len(),
{
    if s.len() > 0 && is_white_space(s.last()) {
        lemma_trim_end_ends(s.drop_last());
    }
}

/// A trimmed text neither starts nor ends with white space.
pub proof fn trimmed_ends(s: Seq<char>)
    ensures
        trimmed(s).len() > 0 ==> !is_white_space(trimmed(s)[0]) && !is_white_space(
            trimmed(s).last(),
        ),
{
    lemma_trim_start_ends(s);
    lemma_trim_end_ends(trim_start(s));
}

/// Trimming a trimmed text changes nothing.
pub proof fn trim_is_idempotent(s: Seq<char>)
    ensures
        trimmed(trimmed(s)) == trimmed(s),
{
    trimmed_ends(s);
}

/// The characters of a text.
pub fn chars_of(s: &str) -> (cs: Vec<char>)
    ensures
        cs@ == s@,
{
    let mut cs: Vec<char> = Vec::new();
    for c in it: s.chars()
        invariant
            it.seq() == s@,
            cs@ == s@.take(it.index()),
    {
        cs.push(c);
    }
    assert(s@.take(s@.len() as int) =~= s@);
    cs
}

/// The text without the white space at both its ends.
pub fn trim(s: &str) -> (r: &str)
    ensures
        r@ == trimmed(s@),
{
    let cs = chars_of(s);
    let n: usize = cs.len();
    let mut i: usize = 0;
    assert(s@.skip(0) =~= s@);
    while i < n && white_space(cs[i])
        invariant
            cs@ == s@,
            n == cs@.len(),
            i <= n,
            trim_start(s@) == trim_start(s@.skip(i as int)),
        decreases n - i,
    {
        assert(s@.skip(i as int).drop_first() =~= s@.skip(i + 1));
        i += 1;
    }
    let ghost t = s@.skip(i as int);
    assert(trim_start(s@) == t);
    let mut j: usize = n;
    assert(s@.subrange(i as int, n as int) =~= t);
    while i < j && white_space(cs[j - 1])
        invariant
            cs@ == s@,
            n == cs@.len(),
            i <= j <= n,
            trim_end(t) == trim_end(s@.subrange(i as int, j as int)),
        decreases j,
    {
        assert(s@.subrange(i as int, j as int).drop_last() =~= s@.subrange(i as int, j - 1));
        j -= 1;
    }
    s.substring_char(i, j)
}

/// Whether two texts are the same.
pub fn same_text(a: &str, b: &str) -> (r: bool)
    ensures
        r == (a@ == b@),
{
    a.to_owned() == b.to_owned()
}

/// Whether a text is among some others.
pub fn has_text(list: &Vec<String>, s: &str) -> (r: bool)
    ensures
        r == texts(list@).contains(s@),
{
    let mut i: usize = 0;
    while i < list.len()
        invariant
            i <= list@.len(),
            forall|k: int| 0 <= k < i ==> texts(list@)[k] != s@,
        decreases list@.len() - i,
    {
        if same_text(&list[i], s) {
            assert(texts(list@)[i as int] == s@);
            return true;
        }
        i += 1;
    }
    false
}

/// The pieces between the separators of a text: always one more than there
/// are separators.
pub open spec fn pieces(s: Seq<char>, separator: char) -> Seq<Seq<char>>
    decreases s.len(),
{
    if s.len() == 0 {
        seq![Seq::<char>::empty()]
    } else {
        let before = pieces(s.drop_last(), separator);
        if s.last() == separator {
            before.push(Seq::<char>::empty())
        } else {
            before.update(before.len() - 1, before.last().push(s.last()))
        }
    }
}

/// A text has at least one piece.
pub proof fn lemma_pieces_len(s: Seq<char>, separator: char)
    ensures
        pieces(s, separator).len() >= 1,
    decreases s.len(),
{
    if s.len() > 0 {
        lemma_pieces_len(s.drop_last(), separator);
    }
}

/// The pieces between the separators of a text.
pub fn split_at_each(s: &str, separator: char) -> (r: Vec<String>)
    ensures
        texts(r@) == pieces(s@, separator),
{
    let cs = chars_of(s);
    let n: usize = cs.len();
    let mut r: Vec<String> = Vec::new();
    let mut start: usize = 0;
    let mut i: usize = 0;
    assert(texts(r@).push(s@.subrange(0, 0)) =~~= pieces(s@.take(0), separator));
    while i < n
        invariant
            cs@ == s@,
            n == cs@.len(),
            start <= i <= n,
            texts(r@).push(s@.subrange(start as int, i as int)) == pieces(
                s@.take(i as int),
                separator,
            ),
        decreases n - i,
    {
        let ghost before = texts(r@);
        proof {
            assert(s@.take(i + 1).drop_last() =~= s@.take(i as int));
            assert(s@.take(i + 1).last() == s@[i as int]);
        }
        if cs[i] == separator {
            r.push(s.substring_char(start, i).to_owned());
            start = i + 1;
            proof {
                assert(texts(r@) =~= before.push(r@.last()@));
                assert(s@.subrange(start as int, i + 1) =~= Seq::<char>::empty());
            }
        } else {
            proof {
                let piece = s@.subrange(start as int, i as int);
                assert(s@.subrange(start as int, i + 1) =~= piece.push(s@[i as int]));
                assert(before.push(piece).update(
                    before.len() as int,
                    piece.push(s@[i as int]),
                ) =~= before.push(piece.push(s@[i as int])));
            }
        }
        i += 1;
    }
    let ghost before = texts(r@);
    r.push(s.substring_char(start, n).to_owned());
    proof {
        assert(texts(r@) =~= before.push(r@.last()@));
        assert(s@.take(n as int) =~= s@);
    }
    r
}

/// The words of a text: its longest runs without white space.
pub open spec fn words(s: Seq<char>) -> Seq<Seq<char>>
    decreases s.len(),
{
    if s.len() == 0 {
        Seq::empty()
    } else {
        let before = words(s.drop_last());
        if is_white_space(s.last()) {
            before
        } else if s.len() == 1 || is_white_space(s[s.len() - 2]) {
            before.push(seq![s.last()])
        } else {
            before.update(before.len() - 1, before.last().push(s.last()))
        }
    }
}

/// The words of a text.
pub fn split_words(s: &str) -> (r: Vec<String>)
    ensures
        texts(r@) == words(s@),
{
    let cs = chars_of(s);
    let n: usize = cs.len();
    let mut r: Vec<String> = Vec::new();
    let mut start: usize = 0;
    let mut i: usize = 0;
    assert(texts(r@) =~= words(s@.take(0)));
    while i < n
        invariant
            cs@ == s@,
            n == cs@.len(),
            start <= i <= n,
            start < i ==> !is_white_space(s@[i - 1]) && texts(r@).push(
                s@.subrange(start as int, i as int),
            ) == words(s@.take(i as int)),
            start == i ==> (i > 0 ==> is_white_space(s@[i - 1])) && texts(r@) == words(
                s@.take(i as int),
            ),
        decreases n - i,
    {
        let ghost before = texts(r@);
        proof {
            assert(s@.take(i + 1).drop_last() =~= s@.take(i as int));
            assert(s@.take(i + 1).last() == s@[i as int]);
        }
        if white_space(cs[i]) {
            if start < i {
                r.push(s.substring_char(start, i).to_owned());
                assert(texts(r@) =~= before.push(r@.last()@));
            }
            start = i + 1;
        } else {
            proof {
                let word = s@.subrange(start as int, i as int);
                assert(s@.subrange(start as int, i + 1) =~= word.push(s@[i as int]));
                if start < i {
                    assert(before.push(word).update(
                        before.len() as int,
                        word.push(s@[i as int]),
                    ) =~= before.push(word.push(s@[i as int])));
                } else {
                    assert(word.push(s@[i as int]) =~= seq![s@[i as int]]);
                }
            }
        }
        i += 1;
    }
    let ghost before = texts(r@);
    if start < n {
        r.push(s.substring_char(start, n).to_owned());
        assert(texts(r@) =~= before.push(r@.last()@));
    }
    assert(s@.take(n as int) =~= s@);
    r
}

/// Texts joined by a separator.
pub open spec fn joined(list: Seq<Seq<char>>, separator: Seq<char>) -> Seq<char>
    decreases list.len(),
{
    if list.len() == 0 {
        Seq::empty()
    } else if list.len() == 1 {
        list[0]
    } else {
        joined(list.drop_last(), separator) + separator + list.last()
    }
}

/// The texts from a place of a list on, joined by a separator.
pub fn join_from(list: &Vec<String>, first: usize, separator: &str) -> (r: String)
    requires
        first <= list@.len(),
    ensures
        r@ == joined(texts(list@).skip(first as int), separator@),
{
    let mut r: String = String::new();
    let mut i: usize = first;
    let ghost all = texts(list@).skip(first as int);
    assert(all.take(0).len() == 0);
    while i < list.len()
        invariant
            first <= i <= list@.len(),
            all == texts(list@).skip(first as int),
            r@ == joined(all.take(i - first), separator@),
        decreases list@.len() - i,
    {
        proof {
            assert(all.take(i + 1 - first).drop_last() =~= all.take(i - first));
            assert(all.take(i + 1 - first).last() == list@[i as int]@);
        }
        if i > first {
            r.append(separator);
        }
        r.append(&list[i]);
        assert(i == first ==> r@ =~= list@[i as int]@);
        i += 1;
    }
    assert(all.take(list@.len() - first) =~= all);
    r
}

/// Joining the pieces of a text by their separator gives the text back.
pub proof fn lemma_join_of_pieces(s: Seq<char>, separator: char)
    ensures
        joined(pieces(s, separator), seq![separator]) == s,
    decreases s.len(),
{
    if s.len() == 0 {
    } else {
        let before = pieces(s.drop_last(), separator);
        lemma_pieces_len(s.drop_last(), separator);
        lemma_join_of_pieces(s.drop_last(), separator);
        let all = pieces(s, separator);
        if s.last() == separator {
            assert(all.drop_last() =~= before);
            assert(joined(all, seq![separator]) =~= s.drop_last().push(separator));
        } else {
            assert(all.drop_last() =~= before.drop_last());
            assert(joined(all, seq![separator]) =~= s.drop_last().push(s.last()));
        }
        assert(s.drop_last().push(s.last()) =~= s);
    }
}

/// A text without separators is its only piece.
pub proof fn lemma_one_piece(s: Seq<char>, separator: char)
    requires
        !s.contains(separator),
    ensures
        pieces(s, separator) == seq![s],
    decreases s.len(),
{
    if s.len() > 0 {
        assert(s.contains(s.last()));
        assert forall|c: char| s.drop_last().contains(c) implies s.contains(c) by {
            let i = choose|i: int| 0 <= i < s.len() - 1 && s.drop_last()[i] == c;
            assert(s[i] == c);
        }
        lemma_one_piece(s.drop_last(), separator);
        assert(s.drop_last().push(s.last()) =~= s);
        assert(pieces(s, separator) =~= seq![s]);
    } else {
        assert(s =~= Seq::<char>::empty());
    }
}

/// A separator and a text without separators add that text to the pieces.
pub proof fn lemma_piece_added(s: Seq<char>, separator: char, t: Seq<char>)
    requires
        !t.contains(separator),
    ensures
        pieces(s + seq![separator] + t, separator) == pieces(s, separator).push(t),
    decreases t.len(),
{
    let all = s + seq![separator] + t;
    if t.len() == 0 {
        assert(all.drop_last() =~= s);
        assert(t =~= Seq::<char>::empty());
    } else {
        assert(t.contains(t.last()));
        assert forall|c: char| t.drop_last().contains(c) implies t.contains(c) by {
            let i = choose|i: int| 0 <= i < t.len() - 1 && t.drop_last()[i] == c;
            assert(t[i] == c);
        }
        lemma_piece_added(s, separator, t.drop_last());
        assert(all.drop_last() =~= s + seq![separator] + t.drop_last());
        assert(t.drop_last().push(t.last()) =~= t);
        assert(pieces(all, separator) =~= pieces(s, separator).push(t));
    }
}

/// Whether a text has a pattern at a place.
pub open spec fn occurs_at(pattern: Seq<char>, s: Seq<char>, i: int) -> bool {
    0 <= i && i + pattern.len() <= s.len() && s.subrange(i, i + pattern.len()) == pattern
}

/// Whether a text has a pattern anywhere.
pub open spec fn occurs(pattern: Seq<char>, s: Seq<char>) -> bool {
    exists|i: int| occurs_at(pattern, s, i)
}

/// Whether a text starts with a pattern.
pub open spec fn starts(pattern: Seq<char>, s: Seq<char>) -> bool {
    occurs_at(pattern, s, 0)
}

fn found_at(pattern: &Vec<char>, s: &Vec<char>, i: usize) -> (b: bool)
    ensures
        b == occurs_at(pattern@, s@, i as int),
{
    if s.len() < pattern.len() || s.len() - pattern.len() < i {
        return false;
    }
    let n: usize = s.len();
    let mut k: usize = 0;
    while k < pattern.len()
        invariant
            n == s@.len(),
            k <= pattern@.len(),
            i + pattern@.len() <= n,
            forall|j: int| 0 <= j < k ==> s@[i + j] == #[trigger] pattern@[j],
        decreases pattern@.len() - k,
    {
        if s[i + k] != pattern[k] {
            assert(s@.subrange(i as int, i + pattern@.len())[k as int] != pattern@[k as int]);
            return false;
        }
        k += 1;
    }
    assert(s@.subrange(i as int, i + pattern@.len()) =~= pattern@);
    true
}

/// Whether a text has a pattern anywhere.
pub fn contains_text(s: &str, pattern: &str) -> (b: bool)
    ensures
        b == occurs(pattern@, s@),
{
    let cs = chars_of(s);
    let ps = chars_of(pattern);
    let mut i: usize = 0;
    while i <= cs.len()
        invariant
            cs@ == s@,
            ps@ == pattern@,
            i <= cs@.len() + 1,
            forall|k: int| 0 <= k < i ==> !occurs_at(pattern@, s@, k),
        decreases cs@.len() + 1 - i,
    {
        if found_at(&ps, &cs, i) {
            assert(occurs_at(pattern@, s@, i as int));
            return true;
        }
        if i == cs.len() {
            assert forall|k: int| !occurs_at(pattern@, s@, k) by {};
            return false;
        }
        i += 1;
    }
    false
}

/// Whether a text starts with a pattern.
pub fn starts_with_text(s: &str, pattern: &str) -> (b: bool)
    ensures
        b == starts(pattern@, s@),
{
    let cs = chars_of(s);
    let ps = chars_of(pattern);
    found_at(&ps, &cs, 0)
}

/// The order of texts: by the first character in which they differ, and a
/// text comes after those that it starts with.
pub open spec fn text_le(a: Seq<char>, b: Seq<char>) -> bool
    decreases a.len(),
{
    if a.len() == 0 {
        true
    } else if b.len() == 0 {
        false
    } else if a[0] != b[0] {
        (a[0] as u32) < (b[0] as u32)
    } else {
        text_le(a.drop_first(), b.drop_first())
    }
}

/// Whether a text comes no later than another.
pub fn no_later(a: &str, b: &str) -> (r: bool)
    ensures
        r == text_le(a@, b@),
{
    let ca = chars_of(a);
    let cb = chars_of(b);
    let mut i: usize = 0;
    assert(a@.skip(0) =~= a@);
    assert(b@.skip(0) =~= b@);
    while i < ca.len()
        invariant
            ca@ == a@,
            cb@ == b@,
            i <= ca@.len(),
            i <= cb@.len(),
            text_le(a@, b@) == text_le(a@.skip(i as int), b@.skip(i as int)),
        decreases ca@.len() - i,
    {
        if i == cb.len() {
            return false;
        }
        if ca[i] != cb[i] {
            return (ca[i] as u32) < (cb[i] as u32);
        }
        proof {
            assert(a@.skip(i as int).drop_first() =~= a@.skip(i + 1));
            assert(b@.skip(i as int).drop_first() =~= b@.skip(i + 1));
        }
        i += 1;
    }
    true
}

/// Of two texts one comes no later than the other.
pub proof fn text_order_is_total(a: Seq<char>, b: Seq<char>)
    ensures
        text_le(a, b) || text_le(b, a),
    decreases a.len(),
{
    if a.len() > 0 && b.len() > 0 {
        if a[0] == b[0] {
            text_order_is_total(a.drop_first(), b.drop_first());
        } else {
            vstd::utf8::char_u32_cast(a[0], a[0] as u32);
            vstd::utf8::char_u32_cast(b[0], b[0] as u32);
        }
    }
}

/// Two texts that each come no later than the other are the same.
pub proof fn text_order_is_antisymmetric(a: Seq<char>, b: Seq<char>)
    requires
        text_le(a, b),
        text_le(b, a),
    ensures
        a == b,
    decreases a.len(),
{
    if a.len() > 0 && b.len() > 0 {
        text_order_is_antisymmetric(a.drop_first(), b.drop_first());
        assert(a =~= seq![a[0]] + a.drop_first());
        assert(b =~= seq![b[0]] + b.drop_first());
    } else {
        assert(a =~= b);
    }
}

/// The order of texts is transitive.
pub proof fn text_order_is_transitive(a: Seq<char>, b: Seq<char>, c: Seq<char>)
    requires
        text_le(a, b),
        text_le(b, c),
    ensures
        text_le(a, c),
    decreases a.len(),
{
    if a.len() > 0 && b.len() > 0 && c.len() > 0 && a[0] == b[0] && b[0] == c[0] {
        text_order_is_transitive(a.drop_first(), b.drop_first(), c.drop_first());
    }
}

proof fn lemma_trim_start_cut(s: Seq<char>) -> (i: int)
    ensures
        0 <= i <= s.len(),
        trim_start(s) == s.subrange(i, s.len() as int),
        forall|k: int| 0 <= k < i ==> is_white_space(#[trigger] s[k]),
    decreases s.len(),
{
    if s.len() > 0 && is_white_space(s[0]) {
        let rest = s.drop_first();
        let i = lemma_trim_start_cut(rest);
        assert(rest.subrange(i, rest.len() as int) =~= s.subrange(i + 1, s.len() as int));
        assert forall|k: int| 0 <= k < i + 1 implies is_white_space(#[trigger] s[k]) by {
            if k > 0 {
                assert(s[k] == rest[k - 1]);
            }
        }
        i + 1
    } else {
        assert(s.subrange(0, s.len() as int) =~= s);
        0
    }
}

proof fn lemma_trim_end_cut(s: Seq<char>) -> (j: int)
    ensures
        0 <= j <= s.len(),
        trim_end(s) == s.subrange(0, j),
        forall|k: int| j <= k < s.len() ==> is_white_space(#[trigger] s[k]),
    decreases s.len(),
{
    if s.len() > 0 && is_white_space(s.last()) {
        let rest = s.drop_last();
        let j = lemma_trim_end_cut(rest);
        assert(rest.subrange(0, j) =~= s.subrange(0, j));
        assert forall|k: int| j <= k < s.len() implies is_white_space(#[trigger] s[k]) by {
            if k < rest.len() {
                assert(s[k] == rest[k]);
            }
        }
        j
    } else {
        assert(s.subrange(0, s.len() as int) =~= s);
        s.len() as int
    }
}

/// A trimmed text is the text from some place to another, with nothing but
/// white space before the one and after the other, and none at its own ends.
pub proof fn trimmed_is_the_middle(s: Seq<char>)
    ensures
        exists|i: int, j: int|
            0 <= i <= j <= s.len() && trimmed(s) == #[trigger] s.subrange(i, j) && (forall|k: int|
                0 <= k < s.len() && !(i <= k < j) ==> is_white_space(#[trigger] s[k])),
        trimmed(s).len() > 0 ==> !is_white_space(trimmed(s)[0]) && !is_white_space(
            trimmed(s).last(),
        ),
{
    trimmed_ends(s);
    let i = lemma_trim_start_cut(s);
    let rest = s.subrange(i, s.len() as int);
    let j = lemma_trim_end_cut(rest);
    assert(rest.subrange(0, j) =~= s.subrange(i, i + j));
    assert forall|k: int| 0 <= k < s.len() && !(i <= k < i + j) implies is_white_space(
        #[trigger] s[k],
    ) by {
        if k >= i {
            assert(s[k] == rest[k - i]);
        }
    }
}

/// A text is blank exactly if all of its characters are white space.
pub proof fn blank_is_all_white_space(s: Seq<char>)
    ensures
        is_blank(s) <==> forall|k: int| 0 <= k < s.len() ==> is_white_space(#[trigger] s[k]),
{
    trimmed_is_the_middle(s);
    let (i, j) = choose|i: int, j: int|
        0 <= i <= j <= s.len() && trimmed(s) == #[trigger] s.subrange(i, j) && (forall|k: int|
            0 <= k < s.len() && !(i <= k < j) ==> is_white_space(#[trigger] s[k]));
    if !is_blank(s) {
        assert(s.subrange(i, j)[0] == s[i]);
        assert(!is_white_space(s[i]));
    }
}

proof fn lemma_last_word(s: Seq<char>)
    requires
        s.len() > 0,
        !is_white_space(s.last()),
    ensures
        words(s).len() > 0,
    decreases s.len(),
{
    if s.len() > 1 && !is_white_space(s[s.len() - 2]) {
        lemma_last_word(s.drop_last());
    }
}

/// White space parts the words of a text: those before it and those after it
/// are its words.
pub proof fn words_are_parted_by_white_space(a: Seq<char>, c: char, b: Seq<char>)
    requires
        is_white_space(c),
    ensures
        words(a + seq![c] + b) == words(a) + words(b),
    decreases b.len(),
{
    let all = a + seq![c] + b;
    if b.len() == 0 {
        assert(all.drop_last() =~= a);
        assert(words(a) + words(b) =~= words(a));
    } else {
        let rest = b.drop_last();
        words_are_parted_by_white_space(a, c, rest);
        assert(all.drop_last() =~= a + seq![c] + rest);
        assert(all.last() == b.last());
        if is_white_space(b.last()) {
        } else if b.len() == 1 {
            assert(all[all.len() - 2] == c);
            assert(words(all) =~= words(a) + words(b));
        } else {
            assert(all[all.len() - 2] == b[b.len() - 2]);
            if is_white_space(b[b.len() - 2]) {
                assert(words(all) =~= words(a) + words(b));
            } else {
                assert(rest.last() == b[b.len() - 2]);
                lemma_last_word(rest);
                assert(words(all) =~= words(a) + words(b));
            }
        }
    }
}

/// A text without white space is its only word; the empty text has none.
pub proof fn text_without_white_space_is_one_word(s: Seq<char>)
    requires
        forall|k: int| 0 <= k < s.len() ==> !is_white_space(#[trigger] s[k]),
    ensures
        words(s) == if s.len() == 0 {
            Seq::<Seq<char>>::empty()
        } else {
            seq![s]
        },
    decreases s.len(),
{
    if s.len() > 0 {
        let rest = s.drop_last();
        assert(!is_white_space(s[s.len() - 1]));
        if s.len() > 1 {
            assert(!is_white_space(s[s.len() - 2]));
            assert forall|k: int| 0 <= k < rest.len() implies !is_white_space(
                #[trigger] rest[k],
            ) by {
                assert(rest[k] == s[k]);
            }
            text_without_white_space_is_one_word(rest);
            assert(rest.push(s.last()) =~= s);
            assert(words(rest).update(0, words(rest).last().push(s.last())) =~= seq![s]);
        } else {
            assert(seq![s.last()] =~= s);
            assert(words(rest) =~= Seq::<Seq<char>>::empty());
            assert(words(s) =~= seq![s]);
        }
    }
}

/// Trimming a text keeps its words.
pub proof fn trimming_keeps_words(s: Seq<char>)
    ensures
        words(trimmed(s)) == words(s),
{
    lemma_trim_start_keeps_words(s);
    lemma_trim_end_keeps_words(trim_start(s));
}

proof fn lemma_trim_start_keeps_words(s: Seq<char>)
    ensures
        words(trim_start(s)) == words(s),
    decreases s.len(),
{
    if s.len() > 0 && is_white_space(s[0]) {
        let none = Seq::<char>::empty();
        let rest = s.drop_first();
        lemma_trim_start_keeps_words(rest);
        words_are_parted_by_white_space(none, s[0], rest);
        assert(none + seq![s[0]] + rest =~= s);
        assert(words(none) + words(rest) =~= words(rest));
    }
}

proof fn lemma_trim_end_keeps_words(s: Seq<char>)
    ensures
        words(trim_end(s)) == words(s),
    decreases s.len(),
{
    if s.len() > 0 && is_white_space(s.last()) {
        lemma_trim_end_keeps_words(s.drop_last());
    }
}

/// Words joined by a space are the words of the text that they make.
pub proof fn joined_words_are_its_words(list: Seq<Seq<char>>)
    requires
        forall|i: int, k: int|
            0 <= i < list.len() && 0 <= k < list[i].len() ==> !is_white_space(
                #[trigger] list[i][k],
            ),
        forall|i: int| 0 <= i < list.len() ==> (#[trigger] list[i]).len() > 0,
    ensures
        words(joined(list, " "@)) == list,
    decreases list.len(),
{
    reveal_strlit(" ");
    if list.len() > 0 {
        let rest = list.drop_last();
        let last = list.last();
        assert(last == list[list.len() - 1]);
        assert forall|k: int| 0 <= k < last.len() implies !is_white_space(#[trigger] last[k]) by {
            assert(!is_white_space(list[list.len() - 1][k]));
        }
        text_without_white_space_is_one_word(last);
        if list.len() > 1 {
            assert forall|i: int, k: int|
                0 <= i < rest.len() && 0 <= k < rest[i].len() implies !is_white_space(
                #[trigger] rest[i][k],
            ) by {
                assert(rest[i][k] == list[i][k]);
            }
            assert forall|i: int| 0 <= i < rest.len() implies (#[trigger] rest[i]).len() > 0 by {
                assert(rest[i] == list[i]);
            }
            joined_words_are_its_words(rest);
            words_are_parted_by_white_space(joined(rest, " "@), ' ', last);
            assert(" "@ =~= seq![' ']);
            assert(rest + seq![last] =~= list);
        } else {
            assert(seq![last] =~= list);
        }
    } else {
        assert(words(joined(list, " "@)) =~= list);
    }
}

/// A word has a character, and none of its characters is white space.
pub proof fn words_have_no_white_space(s: Seq<char>, i: int)
    requires
        0 <= i < words(s).len(),
    ensures
        words(s)[i].len() > 0,
        forall|k: int| 0 <= k < words(s)[i].len() ==> !is_white_space(#[trigger] words(s)[i][k]),
    decreases s.len(),
{
    let before = words(s.drop_last());
    if i < before.len() {
        words_have_no_white_space(s.drop_last(), i);
    }
    if s.len() > 1 && !is_white_space(s.last()) && !is_white_space(s[s.len() - 2]) {
        lemma_last_word(s.drop_last());
    }
}

/// Two lists joined in one go are the two joined, with the separator between
/// them; a list of one text is that text, and of none the empty one.
pub proof fn joining_two_lists(
    one: Seq<Seq<char>>,
    other: Seq<Seq<char>>,
    separator: Seq<char>,
    only: Seq<char>,
)
    ensures
        one.len() > 0 && other.len() > 0 ==> joined(one + other, separator) == joined(
            one,
            separator,
        ) + separator + joined(other, separator),
        joined(seq![only], separator) == only,
        joined(Seq::<Seq<char>>::empty(), separator) == Seq::<char>::empty(),
    decreases other.len(),
{
    if one.len() > 0 && other.len() > 0 {
        let all = one + other;
        assert(all.last() == other.last());
        assert(all.drop_last() =~= one + other.drop_last());
        if other.len() == 1 {
            assert(one + other.drop_last() =~= one);
        } else {
            joining_two_lists(one, other.drop_last(), separator, only);
            assert(joined(all, separator) =~= joined(one, separator) + separator + joined(
                other,
                separator,
            ));
        }
    }
}

/// No piece of a text has a separator.
pub proof fn pieces_have_no_separator(s: Seq<char>, separator: char, i: int)
    requires
        0 <= i < pieces(s, separator).len(),
    ensures
        !pieces(s, separator)[i].contains(separator),
    decreases s.len(),
{
    if s.len() > 0 {
        let before = pieces(s.drop_last(), separator);
        lemma_pieces_len(s.drop_last(), separator);
        if i < before.len() {
            pieces_have_no_separator(s.drop_last(), separator, i);
            if s.last() != separator && i == before.len() - 1 {
                let piece = before.last().push(s.last());
                if piece.contains(separator) {
                    let k = choose|k: int| 0 <= k < piece.len() && piece[k] == separator;
                    assert(before.last()[k] == separator);
                }
            }
        }
    }
}

/// A text has a pattern exactly if it is that pattern with something before it
/// and something after it, and starts with it if nothing is before it.
pub proof fn patterns_are_parts(pattern: Seq<char>, s: Seq<char>)
    ensures
        occurs(pattern, s) <==> exists|a: Seq<char>, b: Seq<char>| s == #[trigger] (a + pattern + b),
        starts(pattern, s) <==> exists|b: Seq<char>| s == #[trigger] (pattern + b),
{
    if occurs(pattern, s) {
        let i = choose|i: int| occurs_at(pattern, s, i);
        let a = s.take(i);
        let b = s.skip(i + pattern.len());
        assert forall|k: int| 0 <= k < s.len() implies s[k] == #[trigger] (a + pattern + b)[k] by {
            if i <= k < i + pattern.len() {
                assert(s.subrange(i, i + pattern.len())[k - i] == s[k]);
            }
        }
        assert(s =~= a + pattern + b);
    }
    if exists|a: Seq<char>, b: Seq<char>| s == #[trigger] (a + pattern + b) {
        let (a, b) = choose|a: Seq<char>, b: Seq<char>| s == #[trigger] (a + pattern + b);
        assert(s.subrange(a.len() as int, (a.len() + pattern.len()) as int) =~= pattern);
        assert(occurs_at(pattern, s, a.len() as int));
    }
    if starts(pattern, s) {
        let b = s.skip(pattern.len() as int);
        assert forall|k: int| 0 <= k < s.len() implies s[k] == #[trigger] (pattern + b)[k] by {
            if k < pattern.len() {
                assert(s.subrange(0, pattern.len() as int)[k] == s[k]);
            }
        }
        assert(s =~= pattern + b);
    }
    if exists|b: Seq<char>| s == #[trigger] (pattern + b) {
        let b = choose|b: Seq<char>| s == #[trigger] (pattern + b);
        assert(s.subrange(0, pattern.len() as int) =~= pattern);
    }
}

/// Texts are ordered by the first character in which they differ, and a text
/// comes before those that go on after it.
pub proof fn texts_are_ordered_by_first_difference(
    start: Seq<char>,
    x: char,
    y: char,
    a: Seq<char>,
    b: Seq<char>,
)
    ensures
        x != y ==> (text_le(start + seq![x] + a, start + seq![y] + b) <==> (x as u32) < (y as u32)),
        text_le(start, start + a),
        a.len() > 0 ==> !text_le(start + a, start),
    decreases start.len(),
{
    let one = start + seq![x] + a;
    let other = start + seq![y] + b;
    if start.len() > 0 {
        let rest = start.drop_first();
        texts_are_ordered_by_first_difference(rest, x, y, a, b);
        assert(one.drop_first() =~= rest + seq![x] + a);
        assert(other.drop_first() =~= rest + seq![y] + b);
        assert((start + a).drop_first() =~= rest + a);
    }
}

} // verus!
