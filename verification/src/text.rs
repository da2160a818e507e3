//! Text as sequences of characters: splitting and joining on a delimiter,
//! trimming, comparison, and the case of letters.

use vstd::prelude::*;
use vstd::string::StringExecFns;

verus! {

/// The character sequences of a list of strings.
pub open spec fn texts(v: Seq<String>) -> Seq<Seq<char>> {
    v.map_values(|s: String| s@)
}

/// The pieces of `s` between occurrences of `sep`. There is always at least
/// one piece; `k` occurrences of `sep` give `k + 1` pieces, some possibly empty.
pub open spec fn split_on(s: Seq<char>, sep: char) -> Seq<Seq<char>>
    decreases s.len(),
{
    if s.len() == 0 {
        seq![Seq::<char>::empty()]
    } else {
        let head = split_on(s.drop_last(), sep);
        if s.last() == sep {
            head.push(Seq::<char>::empty())
        } else {
            head.drop_last().push(head.last().push(s.last()))
        }
    }
}

/// The pieces written one after another with `sep` between neighbours.
pub open spec fn join(parts: Seq<Seq<char>>, sep: Seq<char>) -> Seq<char>
    decreases parts.len(),
{
    if parts.len() == 0 {
        Seq::<char>::empty()
    } else if parts.len() == 1 {
        parts[0]
    } else {
        join(parts.drop_last(), sep) + sep + parts.last()
    }
}

/// No piece holds the character `c`.
pub open spec fn free_of(parts: Seq<Seq<char>>, c: char) -> bool {
    forall|i: int| 0 <= i < parts.len() ==> !(#[trigger] parts[i]).contains(c)
}

/// Splitting always yields at least one piece.
pub proof fn lemma_split_nonempty(s: Seq<char>, sep: char)
    ensures
        split_on(s, sep).len() >= 1,
    decreases s.len(),
{
    if s.len() > 0 {
        lemma_split_nonempty(s.drop_last(), sep);
    }
}

/// Appending text without the delimiter extends the last piece.
pub proof fn lemma_split_append(s: Seq<char>, t: Seq<char>, sep: char)
    requires
        !t.contains(sep),
    ensures
        split_on(s + t, sep) == split_on(s, sep).drop_last().push(split_on(s, sep).last() + t),
    decreases t.len(),
{
    lemma_split_nonempty(s, sep);
    let p = split_on(s, sep);
    if t.len() == 0 {
        assert(s + t =~= s);
        assert(p.last() + t =~= p.last());
        assert(p.drop_last().push(p.last()) =~= p);
    } else {
        let t0 = t.drop_last();
        assert(!t0.contains(sep)) by {
            if t0.contains(sep) {
                let i = choose|i: int| 0 <= i < t0.len() && t0[i] == sep;
                assert(t[i] == sep);
            }
        }
        assert(t.last() != sep) by {
            assert(t[t.len() - 1] == t.last());
        }
        lemma_split_append(s, t0, sep);
        assert((s + t).drop_last() =~= s + t0);
        assert((s + t).last() == t.last());
        let q = split_on(s + t0, sep);
        assert(q == p.drop_last().push(p.last() + t0));
        assert(q.drop_last() =~= p.drop_last());
        assert(q.last().push(t.last()) =~= p.last() + t);
    }
}

/// Splitting undoes joining: pieces that are free of the delimiter come back
/// unchanged, provided there is at least one piece.
pub proof fn lemma_split_join(parts: Seq<Seq<char>>, sep: char)
    requires
        parts.len() >= 1,
        free_of(parts, sep),
    ensures
        split_on(join(parts, seq![sep]), sep) == parts,
    decreases parts.len(),
{
    if parts.len() == 1 {
        let e = Seq::<char>::empty();
        lemma_split_append(e, parts[0], sep);
        assert(e + parts[0] =~= parts[0]);
        assert(split_on(e, sep) =~= seq![e]);
        assert(seq![e].drop_last().push(e + parts[0]) =~= parts);
    } else {
        let front = parts.drop_last();
        assert(free_of(front, sep)) by {
            assert forall|i: int| 0 <= i < front.len() implies !(#[trigger] front[i]).contains(sep) by {
                assert(front[i] == parts[i]);
            }
        }
        lemma_split_join(front, sep);
        let j = join(front, seq![sep]);
        let js = j + seq![sep];
        assert(js.drop_last() =~= j);
        assert(js.last() == sep);
        assert(split_on(js, sep) == front.push(Seq::<char>::empty()));
        lemma_split_append(js, parts.last(), sep);
        assert(Seq::<char>::empty() + parts.last() =~= parts.last());
        assert(front.push(Seq::<char>::empty()).drop_last() =~= front);
        assert(front.push(parts.last()) =~= parts);
        assert(join(parts, seq![sep]) =~= js + parts.last());
    }
}

/// Joining undoes splitting, and no piece of a split holds the delimiter.
pub proof fn lemma_join_split(s: Seq<char>, sep: char)
    ensures
        join(split_on(s, sep), seq![sep]) == s,
        free_of(split_on(s, sep), sep),
    decreases s.len(),
{
    let e = Seq::<char>::empty();
    if s.len() == 0 {
        assert(split_on(s, sep) =~= seq![e]);
        assert(s =~= e);
    } else {
        let s0 = s.drop_last();
        lemma_join_split(s0, sep);
        lemma_split_nonempty(s0, sep);
        let head = split_on(s0, sep);
        let all = split_on(s, sep);
        if s.last() == sep {
            assert(all.drop_last() =~= head);
            assert(join(all, seq![sep]) =~= s0 + seq![sep] + e);
            assert(s0 + seq![sep] + e =~= s);
            assert forall|i: int| 0 <= i < all.len() implies !(#[trigger] all[i]).contains(sep) by {
                if i < head.len() {
                    assert(all[i] == head[i]);
                }
            }
        } else {
            let last = head.last().push(s.last());
            assert(all.drop_last() =~= head.drop_last());
            assert(all.last() == last);
            if head.len() == 1 {
                assert(join(head, seq![sep]) == head[0]);
                assert(join(all, seq![sep]) == last);
                assert(last =~= s);
            } else {
                assert(join(head, seq![sep]) == join(head.drop_last(), seq![sep]) + seq![sep]
                    + head.last());
                assert(join(all, seq![sep]) == join(head.drop_last(), seq![sep]) + seq![sep]
                    + last);
                assert(join(head.drop_last(), seq![sep]) + seq![sep] + last =~= (join(
                    head.drop_last(),
                    seq![sep],
                ) + seq![sep] + head.last()).push(s.last()));
                assert(s0.push(s.last()) =~= s);
            }
            assert forall|i: int| 0 <= i < all.len() implies !(#[trigger] all[i]).contains(sep) by {
                if i < head.len() - 1 {
                    assert(all[i] == head[i]);
                } else {
                    assert(all[i] == last);
                    assert(!head[head.len() - 1].contains(sep));
                    if last.contains(sep) {
                        let k = choose|k: int| 0 <= k < last.len() && last[k] == sep;
                        if k < head.last().len() {
                            assert(head.last()[k] == sep);
                        }
                    }
                }
            }
        }
    }
}

/// Appends one character to a string.
///
/// Trusted: wraps `String::push`, which the standard library documents as
/// appending the given `char` to the end of the string.
#[verifier::external_body]
pub(crate) fn push_char(s: &mut String, c: char)
    ensures
        final(s)@ == old(s)@.push(c),
{
    s.push(c)
}

/// The characters of a string, in order.
pub fn to_chars(s: &str) -> (v: Vec<char>)
    ensures
        v@ == s@,
{
    let mut v: Vec<char> = Vec::new();
    for c in it: s.chars()
        invariant
            v@ == it.seq().take(it.index() as int),
            it.seq() == s@,
    {
        v.push(c);
    }
    v
}

/// Splits `s` at every occurrence of `sep`. The pieces hold no `sep`, and
/// joined with `sep` they give `s` back.
pub fn split(s: &str, sep: char) -> (parts: Vec<String>)
    ensures
        texts(parts@) == split_on(s@, sep),
        parts.len() >= 1,
        free_of(texts(parts@), sep),
        join(texts(parts@), seq![sep]) == s@,
{
    proof {
        lemma_split_nonempty(s@, sep);
        lemma_join_split(s@, sep);
    }
    let mut done: Vec<String> = Vec::new();
    let mut cur = String::new();
    proof {
        assert(s@.take(0) =~= Seq::<char>::empty());
        assert(texts(done@).push(cur@) =~= split_on(s@.take(0), sep));
    }
    for c in it: s.chars()
        invariant
            it.seq() == s@,
            texts(done@).push(cur@) == split_on(s@.take(it.index() as int), sep),
    {
        let ghost i = it.index() as int;
        let ghost head = split_on(s@.take(i), sep);
        proof {
            assert(s@.take(i + 1).drop_last() =~= s@.take(i));
            assert(s@.take(i + 1).last() == c);
        }
        if c == sep {
            done.push(cur);
            cur = String::new();
            proof {
                assert(texts(done@) =~= head);
            }
        } else {
            push_char(&mut cur, c);
            proof {
                assert(texts(done@) =~= head.drop_last());
            }
        }
    }
    proof {
        assert(s@.take(s@.len() as int) =~= s@);
    }
    done.push(cur);
    proof {
        assert(texts(done@) =~= split_on(s@, sep));
    }
    done
}

/// Writes the pieces one after another with `sep` between neighbours.
pub fn join_texts(parts: &Vec<String>, sep: &str) -> (out: String)
    ensures
        out@ == join(texts(parts@), sep@),
{
    let mut out = String::new();
    let mut i: usize = 0;
    proof {
        assert(texts(parts@).take(0) =~= Seq::<Seq<char>>::empty());
    }
    while i < parts.len()
        invariant
            i <= parts.len(),
            out@ == join(texts(parts@).take(i as int), sep@),
        decreases parts.len() - i,
    {
        proof {
            let t = texts(parts@);
            assert(t.take(i + 1).drop_last() =~= t.take(i as int));
            assert(t.take(i + 1).last() == parts@[i as int]@);
            if i == 0 {
                assert(out@ =~= Seq::<char>::empty());
                assert(Seq::<char>::empty() + parts@[0]@ =~= t.take(1)[0]);
            }
        }
        if i > 0 {
            out.append(sep);
        }
        out.append(parts[i].as_str());
        i += 1;
    }
    proof {
        assert(texts(parts@).take(parts@.len() as int) =~= texts(parts@));
    }
    out
}

/// Whether two strings hold the same characters.
pub fn same(a: &str, b: &str) -> (r: bool)
    ensures
        r == (a@ == b@),
{
    let x = to_chars(a);
    let y = to_chars(b);
    if x.len() != y.len() {
        assert(a@.len() != b@.len());
        return false;
    }
    let mut i: usize = 0;
    while i < x.len()
        invariant
            i <= x.len(),
            x.len() == y.len(),
            x@ == a@,
            y@ == b@,
            forall|k: int| 0 <= k < i ==> x@[k] == y@[k],
        decreases x.len() - i,
    {
        if x[i] != y[i] {
            assert(a@[i as int] != b@[i as int]);
            return false;
        }
        i += 1;
    }
    assert(x@ =~= y@);
    true
}

/// Strict lexicographic order on character sequences, by code point. A proper
/// prefix comes before the longer text.
pub open spec fn precedes(a: Seq<char>, b: Seq<char>) -> bool
    decreases a.len(),
{
    if b.len() == 0 {
        false
    } else if a.len() == 0 {
        true
    } else if a[0] != b[0] {
        a[0] < b[0]
    } else {
        precedes(a.skip(1), b.skip(1))
    }
}

/// Decides `precedes` on two character vectors.
pub fn comes_before(a: &Vec<char>, b: &Vec<char>) -> (r: bool)
    ensures
        r == precedes(a@, b@),
{
    let mut i: usize = 0;
    proof {
        assert(a@.skip(0) =~= a@);
        assert(b@.skip(0) =~= b@);
    }
    while i < a.len() && i < b.len()
        invariant
            i <= a.len(),
            i <= b.len(),
            precedes(a@, b@) == precedes(a@.skip(i as int), b@.skip(i as int)),
        decreases a.len() - i,
    {
        proof {
            assert(a@.skip(i as int).skip(1) =~= a@.skip(i + 1));
            assert(b@.skip(i as int).skip(1) =~= b@.skip(i + 1));
        }
        if a[i] != b[i] {
            return a[i] < b[i];
        }
        i += 1;
    }
    i < b.len()
}

/// Of two texts at most one precedes the other.
pub proof fn lemma_precedes_asymmetric(a: Seq<char>, b: Seq<char>)
    requires
        precedes(a, b),
    ensures
        !precedes(b, a),
    decreases a.len(),
{
    if a.len() > 0 && b.len() > 0 && a[0] == b[0] {
        lemma_precedes_asymmetric(a.skip(1), b.skip(1));
    }
}

/// "Not after" is transitive: if `a` is not after `b` and `b` is not after `c`,
/// then `a` is not after `c`.
pub proof fn lemma_not_after_transitive(a: Seq<char>, b: Seq<char>, c: Seq<char>)
    requires
        !precedes(b, a),
        !precedes(c, b),
    ensures
        !precedes(c, a),
    decreases a.len(),
{
    if a.len() > 0 && b.len() > 0 && c.len() > 0 {
        if a[0] == b[0] && b[0] == c[0] {
            lemma_not_after_transitive(a.skip(1), b.skip(1), c.skip(1));
        }
    }
}

/// The characters with the Unicode property `White_Space`.
pub open spec fn is_space(c: char) -> bool {
    ||| '\u{9}' <= c <= '\u{d}'
    ||| c == ' '
    ||| c == '\u{85}'
    ||| c == '\u{a0}'
    ||| c == '\u{1680}'
    ||| '\u{2000}' <= c <= '\u{200a}'
    ||| c == '\u{2028}'
    ||| c == '\u{2029}'
    ||| c == '\u{202f}'
    ||| c == '\u{205f}'
    ||| c == '\u{3000}'
}

/// Decides `is_space`.
pub fn is_space_char(c: char) -> (r: bool)
    ensures
        r == is_space(c),
{
    (c >= '\u{9}' && c <= '\u{d}') || c == ' ' || c == '\u{85}' || c == '\u{a0}' || c
        == '\u{1680}' || (c >= '\u{2000}' && c <= '\u{200a}') || c == '\u{2028}' || c
        == '\u{2029}' || c == '\u{202f}' || c == '\u{205f}' || c == '\u{3000}'
}

/// `s` without its leading white space.
pub open spec fn trim_start(s: Seq<char>) -> Seq<char>
    decreases s.len(),
{
    if s.len() > 0 && is_space(s[0]) {
        trim_start(s.skip(1))
    } else {
        s
    }
}

/// `s` without its trailing white space.
pub open spec fn trim_end(s: Seq<char>) -> Seq<char>
    decreases s.len(),
{
    if s.len() > 0 && is_space(s.last()) {
        trim_end(s.drop_last())
    } else {
        s
    }
}

/// `s` without leading and trailing white space.
pub open spec fn trim(s: Seq<char>) -> Seq<char> {
    trim_end(trim_start(s))
}

/// The first character of `s` that is not white space, if there is one.
pub open spec fn first_visible(s: Seq<char>) -> Option<char> {
    if trim_start(s).len() > 0 {
        Some(trim_start(s)[0])
    } else {
        None
    }
}

/// Finds the first character that is not white space.
pub fn leading_char(s: &str) -> (r: Option<char>)
    ensures
        r == first_visible(s@),
{
    proof {
        assert(s@.skip(0) =~= s@);
    }
    for c in it: s.chars()
        invariant
            it.seq() == s@,
            trim_start(s@) == trim_start(s@.skip(it.index() as int)),
    {
        let ghost i = it.index() as int;
        proof {
            assert(s@.skip(i)[0] == c);
            assert(s@.skip(i).skip(1) =~= s@.skip(i + 1));
        }
        if !is_space_char(c) {
            return Some(c);
        }
    }
    proof {
        assert(s@.skip(s@.len() as int) =~= Seq::<char>::empty());
    }
    None
}

/// Removes leading and trailing white space.
pub fn trimmed(s: &str) -> (out: String)
    ensures
        out@ == trim(s@),
{
    let v = to_chars(s);
    let mut a: usize = 0;
    proof {
        assert(v@.skip(0) =~= v@);
    }
    while a < v.len() && is_space_char(v[a])
        invariant
            a <= v.len(),
            trim_start(v@) == trim_start(v@.skip(a as int)),
        decreases v.len() - a,
    {
        proof {
            assert(v@.skip(a as int).skip(1) =~= v@.skip(a + 1));
        }
        a += 1;
    }
    let mut b: usize = v.len();
    proof {
        assert(v@.subrange(a as int, b as int) =~= v@.skip(a as int));
    }
    while b > a && is_space_char(v[b - 1])
        invariant
            a <= b <= v.len(),
            trim(v@) == trim_end(v@.subrange(a as int, b as int)),
        decreases b,
    {
        proof {
            assert(v@.subrange(a as int, b as int).drop_last() =~= v@.subrange(
                a as int,
                b - 1,
            ));
        }
        b -= 1;
    }
    let mut out = String::new();
    let mut i: usize = a;
    while i < b
        invariant
            a <= i <= b <= v.len(),
            out@ == v@.subrange(a as int, i as int),
        decreases b - i,
    {
        push_char(&mut out, v[i]);
        proof {
            assert(v@.subrange(a as int, i as int).push(v@[i as int]) =~= v@.subrange(
                a as int,
                i + 1,
            ));
        }
        i += 1;
    }
    out
}

/// The pieces of `s` between its white-space characters. Two such characters
/// in a row, or one at either end, hold an empty piece.
pub open spec fn split_spaces(s: Seq<char>) -> Seq<Seq<char>>
    decreases s.len(),
{
    if s.len() == 0 {
        seq![Seq::<char>::empty()]
    } else {
        let head = split_spaces(s.drop_last());
        if is_space(s.last()) {
            head.push(Seq::<char>::empty())
        } else {
            head.drop_last().push(head.last().push(s.last()))
        }
    }
}

/// The words of `s`: its longest runs of characters that are not white
/// space, in their order.
pub open spec fn words(s: Seq<char>) -> Seq<Seq<char>> {
    split_spaces(s).filter(|w: Seq<char>| w.len() > 0)
}

/// Splitting at white space always yields at least one piece, and no piece
/// holds white space.
pub proof fn lemma_split_spaces(s: Seq<char>)
    ensures
        split_spaces(s).len() >= 1,
        forall|i: int, k: int|
            0 <= i < split_spaces(s).len() && 0 <= k < split_spaces(s)[i].len() ==> !is_space(
                #[trigger] split_spaces(s)[i][k],
            ),
    decreases s.len(),
{
    if s.len() > 0 {
        lemma_split_spaces(s.drop_last());
        let head = split_spaces(s.drop_last());
        let all = split_spaces(s);
        assert forall|i: int, k: int| 0 <= i < all.len() && 0 <= k < all[i].len() implies !is_space(
            #[trigger] all[i][k],
        ) by {
            if i < head.len() - 1 {
                assert(all[i] == head[i]);
            } else if !is_space(s.last()) {
                if k < head.last().len() {
                    assert(all[i][k] == head[head.len() - 1][k]);
                }
            } else if i < head.len() {
                assert(all[i] == head[i]);
            }
        }
    }
}

/// No word is empty, and no word holds white space.
pub proof fn lemma_words(s: Seq<char>)
    ensures
        forall|i: int| 0 <= i < words(s).len() ==> (#[trigger] words(s)[i]).len() > 0,
        forall|i: int, k: int|
            0 <= i < words(s).len() && 0 <= k < words(s)[i].len() ==> !is_space(
                #[trigger] words(s)[i][k],
            ),
{
    let pred = |w: Seq<char>| w.len() > 0;
    let pieces = split_spaces(s);
    lemma_split_spaces(s);
    assert forall|i: int| 0 <= i < words(s).len() implies (#[trigger] words(s)[i]).len() > 0 by {
        pieces.lemma_filter_pred(pred, i);
    }
    assert forall|i: int, k: int| 0 <= i < words(s).len() && 0 <= k < words(s)[i].len() implies !is_space(
        #[trigger] words(s)[i][k],
    ) by {
        let w = words(s)[i];
        assert(pieces.filter(pred).contains(w));
        pieces.lemma_filter_contains_rev(pred, w);
        let j = choose|j: int| 0 <= j < pieces.len() && pieces[j] == w;
        assert(pieces[j][k] == w[k]);
    }
}

/// The words of a text. No word is empty, and none holds white space.
pub fn split_words(s: &str) -> (out: Vec<String>)
    ensures
        texts(out@) == words(s@),
        forall|i: int| 0 <= i < out.len() ==> (#[trigger] out@[i])@.len() > 0,
        forall|i: int, k: int|
            0 <= i < out.len() && 0 <= k < out@[i]@.len() ==> !is_space(#[trigger] out@[i]@[k]),
{
    proof {
        lemma_words(s@);
    }
    let ghost pred = |w: Seq<char>| w.len() > 0;
    let mut done: Vec<String> = Vec::new();
    let mut cur = String::new();
    proof {
        assert(s@.take(0) =~= Seq::<char>::empty());
        assert(split_spaces(s@.take(0)) =~= seq![Seq::<char>::empty()]);
        assert(split_spaces(s@.take(0)).drop_last() =~= Seq::<Seq<char>>::empty());
        assert(Seq::<Seq<char>>::empty().filter(pred) =~= Seq::<Seq<char>>::empty()) by {
            reveal(Seq::filter);
        }
    }
    for c in it: s.chars()
        invariant
            it.seq() == s@,
            pred == |w: Seq<char>| w.len() > 0,
            split_spaces(s@.take(it.index() as int)).len() >= 1,
            cur@ == split_spaces(s@.take(it.index() as int)).last(),
            texts(done@) == split_spaces(s@.take(it.index() as int)).drop_last().filter(pred),
    {
        let ghost i = it.index() as int;
        let ghost head = split_spaces(s@.take(i));
        proof {
            assert(s@.take(i + 1).drop_last() =~= s@.take(i));
            assert(s@.take(i + 1).last() == c);
        }
        if is_space_char(c) {
            let ghost before = texts(done@);
            proof {
                assert(head.push(Seq::<char>::empty()).drop_last() =~= head);
                assert(head.drop_last().push(head.last()) =~= head);
                head.drop_last().lemma_filter_push(head.last(), pred);
            }
            if !cur.as_str().is_empty() {
                done.push(cur);
                proof {
                    assert(texts(done@) =~= before.push(head.last()));
                }
            }
            cur = String::new();
        } else {
            push_char(&mut cur, c);
            proof {
                assert(head.drop_last().push(head.last().push(c)).drop_last() =~= head.drop_last());
            }
        }
    }
    proof {
        assert(s@.take(s@.len() as int) =~= s@);
        let all = split_spaces(s@);
        assert(all.drop_last().push(all.last()) =~= all);
        all.drop_last().lemma_filter_push(all.last(), pred);
    }
    if !cur.as_str().is_empty() {
        let ghost before = texts(done@);
        done.push(cur);
        proof {
            assert(texts(done@) =~= before.push(split_spaces(s@).last()));
        }
    }
    proof {
        assert forall|i: int| 0 <= i < done.len() implies (#[trigger] done@[i])@.len() > 0 by {
            assert(texts(done@)[i] == done@[i]@);
        }
        assert forall|i: int, k: int|
            0 <= i < done.len() && 0 <= k < done@[i]@.len() implies !is_space(
            #[trigger] done@[i]@[k],
        ) by {
            assert(texts(done@)[i] == done@[i]@);
            assert(words(s@)[i][k] == done@[i]@[k]);
        }
    }
    done
}

/// Folds the letters `A` to `Z` to lower case and leaves every other character.
pub open spec fn fold_ascii(c: char) -> char {
    if 'A' <= c <= 'Z' {
        ((c as int) + 32) as char
    } else {
        c
    }
}

/// `s` with its ASCII capitals folded to lower case.
pub open spec fn ascii_lower(s: Seq<char>) -> Seq<char> {
    s.map_values(|c: char| fold_ascii(c))
}

/// Folds ASCII capitals to lower case.
pub fn lower_ascii(s: &str) -> (out: String)
    ensures
        out@ == ascii_lower(s@),
{
    let mut out = String::new();
    for c in it: s.chars()
        invariant
            it.seq() == s@,
            out@ == ascii_lower(s@.take(it.index() as int)),
    {
        let ghost i = it.index() as int;
        let f = if c >= 'A' && c <= 'Z' {
            (((c as u32) + 32) as u8) as char
        } else {
            c
        };
        push_char(&mut out, f);
        proof {
            assert(ascii_lower(s@.take(i)).push(fold_ascii(c)) =~= ascii_lower(s@.take(i + 1)));
        }
    }
    proof {
        assert(s@.take(s@.len() as int) =~= s@);
    }
    out
}

/// Every character of `s` is an ASCII character.
pub open spec fn is_ascii_text(s: Seq<char>) -> bool {
    forall|i: int| 0 <= i < s.len() ==> (#[trigger] s[i]) as int <= 127
}

/// What `str::to_lowercase` makes of a text.
pub uninterp spec fn lowercased(s: Seq<char>) -> Seq<char>;

/// The lower-case form of a text, given what the Unicode case mapping made
/// of it. In a text of ASCII characters the letters `A` to `Z` are folded
/// and nothing else changes; any other text is as the mapping made it.
pub open spec fn lowercased_or(s: Seq<char>, mapped: Seq<char>) -> Seq<char> {
    if is_ascii_text(s) {
        ascii_lower(s)
    } else {
        mapped
    }
}

/// The lower-case form of a text.
pub open spec fn lower_case(s: Seq<char>) -> Seq<char> {
    lowercased_or(s, lowercased(s))
}

/// The lower-case form of a text under the Unicode case mapping.
///
/// Trusted: wraps `str::to_lowercase`. The contract names the result, and
/// claims of it that a text of ASCII characters comes back with `A` to `Z`
/// folded to `a` to `z` and every other character as it was.
#[verifier::external_body]
pub(crate) fn lowercase(s: &str) -> (out: String)
    ensures
        out@ == lowercased_or(s@, lowercased(s@)),
{
    s.to_lowercase()
}

/// A run of `n` blanks.
pub open spec fn blanks(n: nat) -> Seq<char> {
    Seq::new(n, |i: int| ' ')
}

/// Builds a run of `n` blanks.
pub fn spaces(n: usize) -> (out: String)
    ensures
        out@ == blanks(n as nat),
{
    let mut out = String::new();
    let mut i: usize = 0;
    while i < n
        invariant
            i <= n,
            out@ == blanks(i as nat),
        decreases n - i,
    {
        push_char(&mut out, ' ');
        proof {
            assert(blanks(i as nat).push(' ') =~= blanks((i + 1) as nat));
        }
        i += 1;
    }
    out
}

} // verus!
