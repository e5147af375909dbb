//! Character-level text primitives shared by every parser and rewriter of
//! the crate: whitespace trimming, word splitting, line splitting, joining,
//! prefix and substring tests, all stated over `Seq<char>`.
use vstd::prelude::*;

verus! {

// ---------------------------------------------------------------------------
// Specifications
// ---------------------------------------------------------------------------

/// Unicode `White_Space`, the property that `char::is_whitespace` tests.
pub open spec fn is_ws(c: char) -> bool {
    ||| c == '\t'
    ||| c == '\n'
    ||| c == '\u{0B}'
    ||| c == '\u{0C}'
    ||| c == '\r'
    ||| c == ' '
    ||| c == '\u{85}'
    ||| c == '\u{A0}'
    ||| c == '\u{1680}'
    ||| (0x2000 <= (c as u32) && (c as u32) <= 0x200A)
    ||| c == '\u{2028}'
    ||| c == '\u{2029}'
    ||| c == '\u{202F}'
    ||| c == '\u{205F}'
    ||| c == '\u{3000}'
}

/// `str::trim_start`: the text without its leading whitespace.
pub open spec fn trim_start(s: Seq<char>) -> Seq<char>
    decreases s.len(),
{
    if s.len() > 0 && is_ws(s[0]) {
        trim_start(s.drop_first())
    } else {
        s
    }
}

/// `str::trim_end`: the text without its trailing whitespace.
pub open spec fn trim_end(s: Seq<char>) -> Seq<char>
    decreases s.len(),
{
    if s.len() > 0 && is_ws(s.last()) {
        trim_end(s.drop_last())
    } else {
        s
    }
}

/// `str::trim`: whitespace removed at both ends.
pub open spec fn trim(s: Seq<char>) -> Seq<char> {
    trim_end(trim_start(s))
}

/// Number of leading characters that are not whitespace.
pub open spec fn word_len(s: Seq<char>) -> nat
    decreases s.len(),
{
    if s.len() > 0 && !is_ws(s[0]) {
        1 + word_len(s.drop_first())
    } else {
        0
    }
}

/// `str::split_whitespace`: the maximal runs of non-whitespace characters.
pub open spec fn split_ws(s: Seq<char>) -> Seq<Seq<char>>
    decreases s.len(),
{
    let t = trim_start(s);
    if t.len() == 0 {
        seq![]
    } else {
        let k = word_len(t) as int;
        if 0 < k <= t.len() && t.len() <= s.len() {
            seq![t.take(k)] + split_ws(t.skip(k))
        } else {
            seq![]
        }
    }
}

/// `str::starts_with` for a text prefix.
pub open spec fn starts_with(s: Seq<char>, p: Seq<char>) -> bool {
    p.len() <= s.len() && s.take(p.len() as int) == p
}

/// Index of the first occurrence of `c`, or the length when there is none.
pub open spec fn first_index(s: Seq<char>, c: char) -> int
    decreases s.len(),
{
    if s.len() == 0 {
        0
    } else if s[0] == c {
        0
    } else {
        1 + first_index(s.drop_first(), c)
    }
}

/// A line without the `'\r'` that ends it, as `str::lines` removes before `'\n'`.
pub open spec fn strip_cr(s: Seq<char>) -> Seq<char> {
    if s.len() > 0 && s.last() == '\r' {
        s.drop_last()
    } else {
        s
    }
}

/// `str::lines`: split at `'\n'` (a `'\r'` before it is dropped); a final
/// line ending yields no empty last line.
pub open spec fn lines(s: Seq<char>) -> Seq<Seq<char>>
    decreases s.len(),
{
    if s.len() == 0 {
        seq![]
    } else {
        let k = first_index(s, '\n');
        if 0 <= k < s.len() {
            seq![strip_cr(s.take(k))] + lines(s.skip(k + 1))
        } else {
            seq![s]
        }
    }
}

/// The text an optional `String` holds.
pub open spec fn opt_view(o: Option<String>) -> Option<Seq<char>> {
    match o {
        Some(s) => Some(s@),
        None => None,
    }
}

/// `[T]::join` / `Vec<String>::join`: the parts with `sep` between them.
pub open spec fn join(parts: Seq<Seq<char>>, sep: Seq<char>) -> Seq<char>
    decreases parts.len(),
{
    if parts.len() == 0 {
        seq![]
    } else if parts.len() == 1 {
        parts[0]
    } else {
        join(parts.drop_last(), sep) + sep + parts.last()
    }
}

/// `needle` occurs in `hay` at position `i`.
pub open spec fn occurs_at(hay: Seq<char>, needle: Seq<char>, i: int) -> bool {
    0 <= i && i + needle.len() <= hay.len() && hay.subrange(i, i + needle.len()) == needle
}

/// `str::contains` for a text pattern.
pub open spec fn contains(hay: Seq<char>, needle: Seq<char>) -> bool {
    exists|i: int| occurs_at(hay, needle, i)
}

/// ASCII case folding of one character.
pub open spec fn ascii_lower(c: char) -> char {
    if 'A' <= c && c <= 'Z' {
        ((c as u32) + 32) as char
    } else {
        c
    }
}

/// `str::eq_ignore_ascii_case`.
pub open spec fn eq_ignore_ascii_case(a: Seq<char>, b: Seq<char>) -> bool {
    a.len() == b.len() && forall|i: int| 0 <= i < a.len() ==> ascii_lower(a[i]) == ascii_lower(b[i])
}

/// `str::trim_start_matches(c)`.
pub open spec fn trim_start_char(s: Seq<char>, c: char) -> Seq<char>
    decreases s.len(),
{
    if s.len() > 0 && s[0] == c {
        trim_start_char(s.drop_first(), c)
    } else {
        s
    }
}

/// `str::trim_end_matches(c)`.
pub open spec fn trim_end_char(s: Seq<char>, c: char) -> Seq<char>
    decreases s.len(),
{
    if s.len() > 0 && s.last() == c {
        trim_end_char(s.drop_last(), c)
    } else {
        s
    }
}

/// `str::trim_matches(c)`: every leading and trailing `c` removed.
pub open spec fn trim_char(s: Seq<char>, c: char) -> Seq<char> {
    trim_end_char(trim_start_char(s, c), c)
}

/// `str::split_once(c)`: the text before and after the first `c`.
pub open spec fn split_once(s: Seq<char>, c: char) -> Option<(Seq<char>, Seq<char>)> {
    let k = first_index(s, c);
    if 0 <= k < s.len() {
        Some((s.take(k), s.skip(k + 1)))
    } else {
        None
    }
}

/// The text ends with a line feed.
pub open spec fn ends_with_newline(s: Seq<char>) -> bool {
    s.len() > 0 && s.last() == '\n'
}

/// Decimal digits of a natural number, as `Display` writes an unsigned integer.
pub open spec fn decimal(n: nat) -> Seq<char>
    decreases n,
{
    if n < 10 {
        seq![digit_char(n)]
    } else {
        decimal(n / 10) + seq![digit_char(n % 10)]
    }
}

pub open spec fn digit_char(d: nat) -> char {
    if d == 0 { '0' }
    else if d == 1 { '1' }
    else if d == 2 { '2' }
    else if d == 3 { '3' }
    else if d == 4 { '4' }
    else if d == 5 { '5' }
    else if d == 6 { '6' }
    else if d == 7 { '7' }
    else if d == 8 { '8' }
    else { '9' }
}

// ---------------------------------------------------------------------------
// Lemmas
// ---------------------------------------------------------------------------

pub proof fn lemma_trim_start_len(s: Seq<char>)
    ensures
        trim_start(s).len() <= s.len(),
        trim_start(s) == s.skip(s.len() - trim_start(s).len()),
        trim_start(s).len() > 0 ==> !is_ws(trim_start(s)[0]),
    decreases s.len(),
{
    if s.len() > 0 && is_ws(s[0]) {
        lemma_trim_start_len(s.drop_first());
        assert(s.drop_first().skip(s.drop_first().len() - trim_start(s).len()) =~= s.skip(
            s.len() - trim_start(s).len(),
        ));
    } else {
        assert(s.skip(0) =~= s);
    }
}

pub proof fn lemma_word_len(s: Seq<char>)
    ensures
        word_len(s) <= s.len(),
        forall|i: int| 0 <= i < word_len(s) ==> !is_ws(#[trigger] s[i]),
        word_len(s) < s.len() ==> is_ws(s[word_len(s) as int]),
    decreases s.len(),
{
    if s.len() > 0 && !is_ws(s[0]) {
        lemma_word_len(s.drop_first());
        assert forall|i: int| 0 <= i < word_len(s) implies !is_ws(#[trigger] s[i]) by {
            if i > 0 {
                assert(s[i] == s.drop_first()[i - 1]);
            }
        }
    }
}

pub proof fn lemma_split_ws_nonempty(s: Seq<char>)
    requires
        s.len() > 0,
        !is_ws(s[0]),
    ensures
        split_ws(s).len() >= 1,
{
    lemma_trim_start_len(s);
    assert(trim_start(s) == s);
    lemma_word_len(s);
    assert(word_len(s) >= 1) by {
        assert(s.drop_first().len() < s.len());
    }
}

pub proof fn lemma_first_index_bounds(s: Seq<char>, c: char)
    ensures
        0 <= first_index(s, c) <= s.len(),
        forall|i: int| 0 <= i < first_index(s, c) ==> s[i] != c,
        first_index(s, c) < s.len() ==> s[first_index(s, c)] == c,
    decreases s.len(),
{
    if s.len() > 0 && s[0] != c {
        lemma_first_index_bounds(s.drop_first(), c);
        assert forall|i: int| 0 <= i < first_index(s, c) implies s[i] != c by {
            if i > 0 {
                assert(s[i] == s.drop_first()[i - 1]);
            }
        }
    }
}

/// The first index is characterised by the absence of `c` before it.
pub proof fn lemma_first_index_is(s: Seq<char>, c: char, j: int)
    requires
        0 <= j <= s.len(),
        forall|i: int| 0 <= i < j ==> s[i] != c,
        j < s.len() ==> s[j] == c,
    ensures
        first_index(s, c) == j,
    decreases s.len(),
{
    if s.len() > 0 && s[0] != c {
        assert forall|i: int| 0 <= i < j - 1 implies s.drop_first()[i] != c by {
            assert(s.drop_first()[i] == s[i + 1]);
        }
        lemma_first_index_is(s.drop_first(), c, j - 1);
    }
}

pub proof fn lemma_join_push(parts: Seq<Seq<char>>, sep: Seq<char>, p: Seq<char>)
    ensures
        join(parts.push(p), sep) == if parts.len() == 0 {
            p
        } else {
            join(parts, sep) + sep + p
        },
{
    assert(parts.push(p).drop_last() =~= parts);
}

/// `join` seen from its first part.
pub proof fn lemma_join_front(parts: Seq<Seq<char>>, sep: Seq<char>)
    requires
        parts.len() >= 2,
    ensures
        join(parts, sep) == parts[0] + sep + join(parts.drop_first(), sep),
    decreases parts.len(),
{
    if parts.len() == 2 {
        assert(parts.drop_last() =~= seq![parts[0]]);
        assert(parts.drop_first() =~= seq![parts[1]]);
        assert(join(seq![parts[0]], sep) == parts[0]);
        assert(join(seq![parts[1]], sep) == parts[1]);
        assert(join(parts, sep) == join(parts.drop_last(), sep) + sep + parts.last());
    } else {
        let dl = parts.drop_last();
        let df = parts.drop_first();
        lemma_join_front(dl, sep);
        assert(dl.drop_first() =~= df.drop_last());
        assert(df.last() == parts.last());
        assert(dl[0] == parts[0]);
        assert(join(parts, sep) == join(dl, sep) + sep + parts.last());
        assert(join(df, sep) == join(df.drop_last(), sep) + sep + df.last());
        let a = parts[0] + sep;
        let b = join(dl.drop_first(), sep);
        assert((a + b) + sep + parts.last() =~= a + (b + sep + parts.last()));
    }
}

/// The line does not end with a carriage return.
pub open spec fn no_cr_end(l: Seq<char>) -> bool {
    !(l.len() > 0 && l.last() == '\r')
}

/// The lines that reading back `ls`, written with line feeds between them
/// (and after the last when `nl`), gives: a line followed by a line feed
/// loses one carriage return that ends it.
pub open spec fn lines_read_back(ls: Seq<Seq<char>>, nl: bool) -> Seq<Seq<char>> {
    Seq::new(ls.len(), |i: int| if i < ls.len() - 1 || nl { strip_cr(ls[i]) } else { ls[i] })
}

/// Lines joined by line feeds (with one after the last when `nl`) split
/// back into the same lines but for a carriage return that ends a line
/// followed by a line feed, when none holds a line feed and an
/// unterminated last line is not empty; into the very same lines when no
/// line followed by a line feed ends with a carriage return.
pub proof fn lemma_lines_of_joined(ls: Seq<Seq<char>>, nl: bool)
    requires
        forall|i: int| 0 <= i < ls.len() ==> !(#[trigger] ls[i]).contains('\n'),
        nl ==> ls.len() > 0,
        !nl && ls.len() > 0 ==> ls.last().len() > 0,
    ensures
        lines(join(ls, "\n"@) + if nl { "\n"@ } else { Seq::<char>::empty() }) == lines_read_back(ls, nl),
        (forall|i: int| 0 <= i < ls.len() && (i < ls.len() - 1 || nl) ==> no_cr_end(#[trigger] ls[i]))
            ==> lines(join(ls, "\n"@) + if nl { "\n"@ } else { Seq::<char>::empty() }) == ls,
    decreases ls.len(),
{
    reveal_strlit("\n");
    let tail = if nl { "\n"@ } else { Seq::<char>::empty() };
    let back = lines_read_back(ls, nl);
    if ls.len() == 0 {
        assert(join(ls, "\n"@) + tail =~= Seq::<char>::empty());
        assert(lines(Seq::<char>::empty()) =~= back);
    } else {
        let p = ls[0];
        let rest = if ls.len() == 1 {
            Seq::<char>::empty()
        } else {
            join(ls.drop_first(), "\n"@) + tail
        };
        let t = join(ls, "\n"@) + tail;
        if ls.len() == 1 {
            assert(t =~= p + tail);
            if nl {
                assert(t =~= p + "\n"@ + rest);
            }
        } else {
            lemma_join_front(ls, "\n"@);
            assert(t =~= p + "\n"@ + rest);
        }
        if ls.len() == 1 && !nl {
            assert forall|i: int| 0 <= i < t.len() implies t[i] != '\n' by {
                assert(t[i] == p[i]);
                assert(p.contains(p[i]));
            }
            lemma_first_index_is(t, '\n', t.len() as int);
            assert(lines(t) =~= back);
        } else {
            assert(t[p.len() as int] == '\n');
            assert forall|i: int| 0 <= i < p.len() implies t[i] != '\n' by {
                assert(t[i] == p[i]);
                assert(p.contains(p[i]));
            }
            lemma_first_index_is(t, '\n', p.len() as int);
            assert(t.take(p.len() as int) =~= p);
            assert(t.skip(p.len() as int + 1) =~= rest);
            if ls.len() == 1 {
                assert(rest =~= Seq::<char>::empty());
                assert(lines(rest) =~= Seq::<Seq<char>>::empty());
                assert(lines(t) == seq![strip_cr(t.take(p.len() as int))] + lines(
                    t.skip(p.len() as int + 1),
                ));
                assert(lines(t) =~= back);
            } else {
                lemma_lines_of_joined(ls.drop_first(), nl);
                assert(lines(rest) == lines_read_back(ls.drop_first(), nl));
                assert(lines(t) =~= seq![strip_cr(p)] + lines_read_back(ls.drop_first(), nl));
                assert(seq![strip_cr(p)] + lines_read_back(ls.drop_first(), nl) =~= back);
            }
        }
    }
    if forall|i: int| 0 <= i < ls.len() && (i < ls.len() - 1 || nl) ==> no_cr_end(#[trigger] ls[i]) {
        assert(back =~= ls);
    }
}

/// Whitespace at the start goes, and what follows a kept start stays.
pub proof fn lemma_trim_start_push(a: Seq<char>, c: char)
    ensures
        trim_start(a.push(c)) == if trim_start(a).len() > 0 {
            trim_start(a).push(c)
        } else {
            trim_start(seq![c])
        },
    decreases a.len(),
{
    if a.len() == 0 {
        assert(a.push(c) =~= seq![c]);
    } else if is_ws(a[0]) {
        assert(a.push(c).drop_first() =~= a.drop_first().push(c));
        lemma_trim_start_push(a.drop_first(), c);
    }
}

/// A carriage return at the end changes nothing that trimming keeps.
pub proof fn lemma_trim_cr(a: Seq<char>)
    ensures
        trim_start(a.push('\r')) == if trim_start(a).len() > 0 {
            trim_start(a).push('\r')
        } else {
            Seq::<char>::empty()
        },
        trim(a.push('\r')) == trim(a),
{
    lemma_trim_start_push(a, '\r');
    assert(seq!['\r'].drop_first() =~= Seq::<char>::empty());
    assert(trim_start(seq!['\r']) == trim_start(Seq::<char>::empty()));
    let t = trim_start(a);
    if t.len() > 0 {
        assert(t.push('\r').drop_last() =~= t);
    }
}

/// Dropping a carriage return that ends a line: it is the line without it.
pub proof fn lemma_strip_cr_push(l: Seq<char>)
    ensures
        !no_cr_end(l) ==> l == strip_cr(l).push('\r'),
        no_cr_end(l) ==> strip_cr(l) == l,
{
    if !no_cr_end(l) {
        assert(l =~= l.drop_last().push('\r'));
    }
}

/// `contains` carries over from a suffix to the whole text.
pub proof fn lemma_contains_skip(s: Seq<char>, k: int, needle: Seq<char>)
    requires
        0 <= k <= s.len(),
        contains(s.skip(k), needle),
    ensures
        contains(s, needle),
{
    let i = choose|i: int| occurs_at(s.skip(k), needle, i);
    assert(s.subrange(k + i, k + i + needle.len()) =~= s.skip(k).subrange(i, i + needle.len()));
    assert(occurs_at(s, needle, k + i));
}

/// What the lines of a text are made of: no line holds a line feed; where
/// the text never has two carriage returns before a line feed, a line
/// followed by a line feed does not end with a carriage return; and the
/// last line of a text without a final line feed is not empty.
pub proof fn lemma_lines_shape(s: Seq<char>)
    ensures
        forall|i: int| 0 <= i < lines(s).len() ==> !(#[trigger] lines(s)[i]).contains('\n'),
        !contains(s, "\r\r\n"@) ==> forall|i: int|
            0 <= i < lines(s).len() && (i < lines(s).len() - 1 || ends_with_newline(s))
                ==> no_cr_end(#[trigger] lines(s)[i]),
        ends_with_newline(s) ==> lines(s).len() > 0,
        !ends_with_newline(s) && lines(s).len() > 0 ==> lines(s).last().len() > 0,
    decreases s.len(),
{
    reveal_strlit("\r\r\n");
    if s.len() > 0 {
        let k = first_index(s, '\n');
        lemma_first_index_bounds(s, '\n');
        if k < s.len() {
            let p = s.take(k);
            let r = s.skip(k + 1);
            lemma_lines_shape(r);
            let first = strip_cr(p);
            assert(lines(s) == seq![first] + lines(r));
            assert forall|j: int| 0 <= j < first.len() implies first[j] != '\n' by {
                assert(first[j] == s[j]);
            }
            if first.contains('\n') {
                let j = choose|j: int| 0 <= j < first.len() && first[j] == '\n';
                assert(false);
            }
            if !contains(s, "\r\r\n"@) {
                if !no_cr_end(first) {
                    assert(p.len() >= 2 && p[k - 1] == '\r' && p[k - 2] == '\r');
                    assert(s.subrange(k - 2, k + 1) =~= "\r\r\n"@);
                    assert(occurs_at(s, "\r\r\n"@, k - 2));
                    assert(false);
                }
                if contains(r, "\r\r\n"@) {
                    lemma_contains_skip(s, k + 1, "\r\r\n"@);
                }
            }
            if r.len() > 0 {
                assert(r.last() == s.last());
            } else {
                assert(lines(r) =~= Seq::<Seq<char>>::empty());
                assert(k == s.len() - 1);
            }
            assert forall|i: int| 0 <= i < lines(s).len() implies !(#[trigger] lines(s)[i]).contains(
                '\n',
            ) by {
                if i > 0 {
                    assert(lines(s)[i] == lines(r)[i - 1]);
                }
            }
            if !contains(s, "\r\r\n"@) {
                assert forall|i: int|
                    0 <= i < lines(s).len() && (i < lines(s).len() - 1 || ends_with_newline(s))
                        implies no_cr_end(#[trigger] lines(s)[i]) by {
                    if i > 0 {
                        assert(lines(s)[i] == lines(r)[i - 1]);
                    }
                }
            }
            if !ends_with_newline(s) {
                assert(r.len() > 0);
                assert(lines(s).last() == lines(r).last());
            }
        } else {
            assert(lines(s) =~= seq![s]);
            assert forall|j: int| 0 <= j < s.len() implies s[j] != '\n' by {}
            if s.contains('\n') {
                let j = choose|j: int| 0 <= j < s.len() && s[j] == '\n';
                assert(false);
            }
        }
    }
}

/// A text of lines joined by line feeds ends with a line feed only when
/// its last line does.
pub proof fn lemma_join_last(parts: Seq<Seq<char>>, sep: Seq<char>)
    requires
        parts.len() > 0,
        parts.last().len() > 0,
    ensures
        join(parts, sep).len() > 0,
        join(parts, sep).last() == parts.last().last(),
{
}

/// A word: some characters, none of them whitespace.
pub open spec fn is_word(w: Seq<char>) -> bool {
    w.len() > 0 && forall|i: int| 0 <= i < w.len() ==> !is_ws(#[trigger] w[i])
}

proof fn lemma_word_len_prefix(a: Seq<char>, b: Seq<char>)
    requires
        is_word(a),
        b.len() == 0 || is_ws(b[0]),
    ensures
        word_len(a + b) == a.len(),
    decreases a.len(),
{
    assert((a + b)[0] == a[0]);
    assert(!is_ws(a[0]));
    if a.len() == 1 {
        assert((a + b).drop_first() =~= b);
        assert(word_len(b) == 0);
    } else {
        assert((a + b).drop_first() =~= a.drop_first() + b);
        assert forall|i: int| 0 <= i < a.drop_first().len() implies !is_ws(
            #[trigger] a.drop_first()[i],
        ) by {
            assert(a.drop_first()[i] == a[i + 1]);
        }
        lemma_word_len_prefix(a.drop_first(), b);
    }
}

/// Words joined by single spaces, with spaces or nothing after them, split
/// back into the same words.
pub proof fn lemma_split_joined_words(words: Seq<Seq<char>>, after: Seq<char>)
    requires
        forall|i: int| 0 <= i < words.len() ==> is_word(#[trigger] words[i]),
        forall|i: int| 0 <= i < after.len() ==> is_ws(#[trigger] after[i]),
    ensures
        split_ws(join(words, " "@) + after) == words,
    decreases words.len(), after.len(),
{
    reveal_strlit(" ");
    if words.len() == 0 {
        assert(join(words, " "@) + after =~= after);
        lemma_trim_start_len(after);
        if trim_start(after).len() > 0 {
            assert(trim_start(after)[0] == after[after.len() - trim_start(after).len()]);
        }
        assert(split_ws(after) =~= words);
    } else {
        let w = words[0];
        let rest = if words.len() == 1 {
            after
        } else {
            " "@ + join(words.drop_first(), " "@) + after
        };
        let s = join(words, " "@) + after;
        if words.len() == 1 {
            assert(s =~= w + rest);
        } else {
            lemma_join_front(words, " "@);
            assert(s =~= w + rest);
        }
        assert(rest.len() == 0 || is_ws(rest[0]));
        lemma_word_len_prefix(w, rest);
        assert(s[0] == w[0]);
        assert(trim_start(s) == s);
        assert(s.take(w.len() as int) =~= w);
        assert(s.skip(w.len() as int) =~= rest);
        assert(split_ws(s) == seq![w] + split_ws(rest));
        if words.len() == 1 {
            lemma_split_joined_words(Seq::<Seq<char>>::empty(), after);
            assert(join(Seq::<Seq<char>>::empty(), " "@) + after =~= after);
            assert(split_ws(s) =~= words);
        } else {
            let j = join(words.drop_first(), " "@) + after;
            lemma_split_joined_words(words.drop_first(), after);
            assert(rest =~= " "@ + j);
            assert(rest[0] == ' ');
            assert(rest.drop_first() =~= j);
            assert(trim_start(rest) == trim_start(j));
            assert(split_ws(rest) == split_ws(j));
            assert(split_ws(s) =~= words);
        }
    }
}

/// The pieces of `split_ws` are words made of characters of the text.
pub proof fn lemma_split_ws_words(s: Seq<char>, c: char)
    ensures
        forall|i: int| 0 <= i < split_ws(s).len() ==> is_word(#[trigger] split_ws(s)[i]),
        !s.contains(c) ==> forall|i: int|
            0 <= i < split_ws(s).len() ==> !(#[trigger] split_ws(s)[i]).contains(c),
    decreases s.len(),
{
    let t = trim_start(s);
    lemma_trim_start_len(s);
    if t.len() > 0 {
        let k = word_len(t) as int;
        lemma_word_len(t);
        if 0 < k <= t.len() && t.len() <= s.len() {
            let r = t.skip(k);
            lemma_split_ws_words(r, c);
            let w = t.take(k);
            assert(split_ws(s) == seq![w] + split_ws(r));
            assert forall|i: int| 0 <= i < split_ws(s).len() implies is_word(
                #[trigger] split_ws(s)[i],
            ) by {
                if i == 0 {
                    assert forall|j: int| 0 <= j < w.len() implies !is_ws(#[trigger] w[j]) by {
                        assert(w[j] == t[j]);
                    }
                } else {
                    assert(split_ws(s)[i] == split_ws(r)[i - 1]);
                }
            }
            if !s.contains(c) {
                let off = s.len() - t.len();
                if r.contains(c) {
                    let j = choose|j: int| 0 <= j < r.len() && r[j] == c;
                    assert(s[off + k + j] == c);
                    assert(false);
                }
                if w.contains(c) {
                    let j = choose|j: int| 0 <= j < w.len() && w[j] == c;
                    assert(s[off + j] == c);
                    assert(false);
                }
                assert forall|i: int| 0 <= i < split_ws(s).len() implies !(
                #[trigger] split_ws(s)[i]).contains(c) by {
                    if i > 0 {
                        assert(split_ws(s)[i] == split_ws(r)[i - 1]);
                    }
                }
            }
        }
    }
}

/// Words joined by single spaces: every character is a space or not
/// whitespace, and the text ends with a character that is not whitespace.
pub proof fn lemma_joined_words_shape(words: Seq<Seq<char>>)
    requires
        forall|i: int| 0 <= i < words.len() ==> is_word(#[trigger] words[i]),
    ensures
        forall|k: int|
            0 <= k < join(words, " "@).len() ==> #[trigger] join(words, " "@)[k] == ' ' || !is_ws(
                join(words, " "@)[k],
            ),
        words.len() > 0 ==> join(words, " "@).len() > 0 && !is_ws(join(words, " "@).last()),
    decreases words.len(),
{
    reveal_strlit(" ");
    if words.len() > 0 {
        let w = words.last();
        assert(is_word(w));
        assert(!is_ws(w[w.len() - 1]));
        if words.len() > 1 {
            lemma_joined_words_shape(words.drop_last());
            let j0 = join(words.drop_last(), " "@);
            assert(join(words, " "@) == j0 + " "@ + w);
            assert forall|k: int| 0 <= k < join(words, " "@).len() implies #[trigger] join(
                words,
                " "@,
            )[k] == ' ' || !is_ws(join(words, " "@)[k]) by {
                if k < j0.len() {
                    assert(join(words, " "@)[k] == j0[k]);
                } else if k > j0.len() {
                    assert(join(words, " "@)[k] == w[k - j0.len() - 1]);
                }
            }
        } else {
            assert(join(words, " "@) == w);
        }
    }
}

/// A character in neither text is not in their concatenation.
pub proof fn lemma_no_char_concat(a: Seq<char>, b: Seq<char>, c: char)
    requires
        !a.contains(c),
        !b.contains(c),
    ensures
        !(a + b).contains(c),
{
    if (a + b).contains(c) {
        let j = choose|j: int| 0 <= j < (a + b).len() && (a + b)[j] == c;
        if j < a.len() {
            assert(a[j] == c);
        } else {
            assert(b[j - a.len()] == c);
        }
        assert(false);
    }
}

/// What `trim_start` removes is whitespace.
pub proof fn lemma_trim_start_prefix_ws(s: Seq<char>, k: int)
    requires
        0 <= k < s.len() - trim_start(s).len(),
    ensures
        is_ws(s[k]),
    decreases s.len(),
{
    if s.len() > 0 && is_ws(s[0]) && k > 0 {
        lemma_trim_start_prefix_ws(s.drop_first(), k - 1);
    }
}

/// A text with a character that is not whitespace has a first word.
pub proof fn lemma_split_ws_first(s: Seq<char>, i: int)
    requires
        0 <= i < s.len(),
        !is_ws(s[i]),
    ensures
        split_ws(s).len() >= 1,
{
    lemma_trim_start_len(s);
    let t = trim_start(s);
    if t.len() == 0 {
        lemma_trim_start_prefix_ws(s, i);
        assert(false);
    }
    lemma_word_len(t);
    assert(word_len(t) >= 1) by {
        assert(t.drop_first().len() < t.len());
    }
}

/// Words joined by spaces hold no character that no word holds, but spaces.
pub proof fn lemma_join_words_avoid(words: Seq<Seq<char>>, c: char)
    requires
        c != ' ',
        forall|i: int| 0 <= i < words.len() ==> !(#[trigger] words[i]).contains(c),
    ensures
        !join(words, " "@).contains(c),
    decreases words.len(),
{
    reveal_strlit(" ");
    if words.len() == 1 {
        assert(join(words, " "@) == words[0]);
    } else if words.len() > 1 {
        lemma_join_words_avoid(words.drop_last(), c);
        assert(!" "@.contains(c)) by {
            if " "@.contains(c) {
                let j = choose|j: int| 0 <= j < " "@.len() && " "@[j] == c;
                assert(false);
            }
        }
        assert(!words[words.len() - 1].contains(c));
        lemma_no_char_concat(join(words.drop_last(), " "@), " "@, c);
        lemma_no_char_concat(join(words.drop_last(), " "@) + " "@, words.last(), c);
    }
}

/// Words joined by spaces start with the first word.
pub proof fn lemma_join_first(words: Seq<Seq<char>>)
    requires
        words.len() > 0,
        words[0].len() > 0,
    ensures
        join(words, " "@).len() > 0,
        join(words, " "@)[0] == words[0][0],
{
    if words.len() >= 2 {
        lemma_join_front(words, " "@);
    }
}

/// `split_once` cuts at the first `#` when the text before it has none.
pub proof fn lemma_first_hash_at(a: Seq<char>, c: Seq<char>)
    requires
        !a.contains('#'),
    ensures
        split_once(a + "#"@ + c, '#') == Some((a, c)),
{
    reveal_strlit("#");
    let s = a + "#"@ + c;
    assert forall|i: int| 0 <= i < a.len() implies s[i] != '#' by {
        assert(s[i] == a[i]);
        assert(a.contains(a[i]));
    }
    assert(s[a.len() as int] == '#');
    lemma_first_index_is(s, '#', a.len() as int);
    assert(s.take(a.len() as int) =~= a);
    assert(s.skip(a.len() as int + 1) =~= c);
}

pub proof fn lemma_decimal_nonempty(n: nat)
    ensures
        decimal(n).len() >= 1,
    decreases n,
{
    if n >= 10 {
        lemma_decimal_nonempty(n / 10);
    }
}

// ---------------------------------------------------------------------------
// Executable functions
// ---------------------------------------------------------------------------

/// The characters of a string, in order.
pub fn chars_of(s: &str) -> (v: Vec<char>)
    ensures
        v@ == s@,
{
    let mut v: Vec<char> = Vec::new();
    for c in it: s.chars()
        invariant
            v@ == it.seq().take(it.index() as int),
            it.seq() == s@,
    {
        v.push(c);
    }
    v
}

/// `char::is_whitespace`.
pub fn is_ws_char(c: char) -> (b: bool)
    ensures
        b == is_ws(c),
{
    c == '\t' || c == '\n' || c == '\u{0B}' || c == '\u{0C}' || c == '\r' || c == ' ' || c
        == '\u{85}' || c == '\u{A0}' || c == '\u{1680}' || ('\u{2000}' <= c && c <= '\u{200A}')
        || c == '\u{2028}' || c == '\u{2029}' || c == '\u{202F}' || c == '\u{205F}' || c
        == '\u{3000}'
}

/// Start of `trim_start` within the range `a..b`.
pub fn skip_ws(cs: &Vec<char>, a: usize, b: usize) -> (r: usize)
    requires
        a <= b <= cs.len(),
    ensures
        a <= r <= b,
        cs@.subrange(r as int, b as int) == trim_start(cs@.subrange(a as int, b as int)),
{
    let mut i: usize = a;
    while i < b && is_ws_char(cs[i])
        invariant
            a <= i <= b <= cs.len(),
            trim_start(cs@.subrange(i as int, b as int)) == trim_start(
                cs@.subrange(a as int, b as int),
            ),
        decreases b - i,
    {
        proof {
            let s = cs@.subrange(i as int, b as int);
            assert(s.drop_first() =~= cs@.subrange(i + 1, b as int));
        }
        i = i + 1;
    }
    proof {
        let s = cs@.subrange(i as int, b as int);
        if s.len() > 0 {
            assert(s[0] == cs@[i as int]);
        }
    }
    i
}

/// End of `trim_end` within the range `a..b`.
pub fn skip_ws_back(cs: &Vec<char>, a: usize, b: usize) -> (r: usize)
    requires
        a <= b <= cs.len(),
    ensures
        a <= r <= b,
        cs@.subrange(a as int, r as int) == trim_end(cs@.subrange(a as int, b as int)),
{
    let mut j: usize = b;
    while j > a && is_ws_char(cs[j - 1])
        invariant
            a <= j <= b <= cs.len(),
            trim_end(cs@.subrange(a as int, j as int)) == trim_end(
                cs@.subrange(a as int, b as int),
            ),
        decreases j - a,
    {
        proof {
            let s = cs@.subrange(a as int, j as int);
            assert(s.drop_last() =~= cs@.subrange(a as int, j - 1));
        }
        j = j - 1;
    }
    proof {
        let s = cs@.subrange(a as int, j as int);
        if s.len() > 0 {
            assert(s.last() == cs@[j - 1]);
        }
    }
    j
}

/// Bounds of `trim` within the range `a..b`.
pub fn trim_range(cs: &Vec<char>, a: usize, b: usize) -> (r: (usize, usize))
    requires
        a <= b <= cs.len(),
    ensures
        a <= r.0 <= r.1 <= b,
        cs@.subrange(r.0 as int, r.1 as int) == trim(cs@.subrange(a as int, b as int)),
{
    let s: usize = skip_ws(cs, a, b);
    let e: usize = skip_ws_back(cs, s, b);
    (s, e)
}

/// The ranges of `split_ws` within `a..b`.
pub fn split_ws_ranges(cs: &Vec<char>, a: usize, b: usize) -> (r: Vec<(usize, usize)>)
    requires
        a <= b <= cs.len(),
    ensures
        r.len() == split_ws(cs@.subrange(a as int, b as int)).len(),
        r.len() <= b - a,
        forall|k: int|
            0 <= k < r.len() ==> a <= (#[trigger] r@[k]).0 < r@[k].1 <= b && cs@.subrange(
                r@[k].0 as int,
                r@[k].1 as int,
            ) == split_ws(cs@.subrange(a as int, b as int))[k],
{
    let mut out: Vec<(usize, usize)> = Vec::new();
    let ghost whole = split_ws(cs@.subrange(a as int, b as int));
    let ghost mut done: Seq<Seq<char>> = seq![];
    let mut i: usize = a;
    loop
        invariant
            a <= i <= b <= cs.len(),
            done.len() == out.len(),
            out.len() <= i - a,
            done + split_ws(cs@.subrange(i as int, b as int)) == whole,
            whole == split_ws(cs@.subrange(a as int, b as int)),
            forall|k: int|
                0 <= k < out.len() ==> a <= (#[trigger] out@[k]).0 < out@[k].1 <= i && cs@.subrange(
                    out@[k].0 as int,
                    out@[k].1 as int,
                ) == done[k],
        ensures
            done.len() == out.len(),
            out.len() <= b - a,
            done == whole,
            forall|k: int|
                0 <= k < out.len() ==> a <= (#[trigger] out@[k]).0 < out@[k].1 <= b && cs@.subrange(
                    out@[k].0 as int,
                    out@[k].1 as int,
                ) == done[k],
        decreases b - i,
    {
        let j: usize = skip_ws(cs, i, b);
        if j == b {
            proof {
                let s = cs@.subrange(i as int, b as int);
                assert(cs@.subrange(j as int, b as int).len() == 0);
                assert(split_ws(s) == Seq::<Seq<char>>::empty());
                assert(done + split_ws(s) =~= done);
            }
            break;
        }
        let mut k: usize = j;
        while k < b && !is_ws_char(cs[k])
            invariant
                j < b,
                j <= k <= b <= cs.len(),
                word_len(cs@.subrange(j as int, b as int)) == (k - j) + word_len(
                    cs@.subrange(k as int, b as int),
                ),
            decreases b - k,
        {
            proof {
                let s = cs@.subrange(k as int, b as int);
                assert(s.drop_first() =~= cs@.subrange(k + 1, b as int));
                assert(s[0] == cs@[k as int]);
            }
            k = k + 1;
        }
        proof {
            let s = cs@.subrange(i as int, b as int);
            let t = cs@.subrange(j as int, b as int);
            let rest = cs@.subrange(k as int, b as int);
            if rest.len() > 0 {
                assert(rest[0] == cs@[k as int]);
            }
            assert(word_len(rest) == 0);
            assert(t[0] == cs@[j as int]);
            assert(!is_ws(t[0])) by {
                lemma_trim_start_len(s);
            }
            assert(word_len(t) >= 1);
            assert(t.take(k - j) =~= cs@.subrange(j as int, k as int));
            assert(t.skip(k - j) =~= rest);
            assert(split_ws(s) == seq![cs@.subrange(j as int, k as int)] + split_ws(rest));
            assert(done.push(cs@.subrange(j as int, k as int)) + split_ws(rest) =~= done + split_ws(
                s,
            ));
        }
        out.push((j, k));
        proof {
            done = done.push(cs@.subrange(j as int, k as int));
        }
        i = k;
    }
    out
}

/// `cs[a..b]` equals `p`.
pub fn range_eq(cs: &Vec<char>, a: usize, b: usize, p: &Vec<char>) -> (r: bool)
    requires
        a <= b <= cs.len(),
    ensures
        r == (cs@.subrange(a as int, b as int) == p@),
{
    if b - a != p.len() {
        proof {
            assert(cs@.subrange(a as int, b as int).len() != p@.len());
        }
        return false;
    }
    let mut i: usize = 0;
    while i < p.len()
        invariant
            b - a == p.len(),
            a <= b <= cs.len(),
            0 <= i <= p.len(),
            forall|t: int| 0 <= t < i ==> cs@[a + t] == p@[t],
        decreases p.len() - i,
    {
        if cs[a + i] != p[i] {
            proof {
                assert(cs@.subrange(a as int, b as int)[i as int] != p@[i as int]);
            }
            return false;
        }
        i = i + 1;
    }
    proof {
        assert(cs@.subrange(a as int, b as int) =~= p@);
    }
    true
}

/// `cs[a..b]` starts with `p`.
pub fn range_starts_with(cs: &Vec<char>, a: usize, b: usize, p: &Vec<char>) -> (r: bool)
    requires
        a <= b <= cs.len(),
    ensures
        r == starts_with(cs@.subrange(a as int, b as int), p@),
{
    if b - a < p.len() {
        return false;
    }
    let r = range_eq(cs, a, a + p.len(), p);
    proof {
        assert(cs@.subrange(a as int, b as int).take(p.len() as int) =~= cs@.subrange(
            a as int,
            a + p.len(),
        ));
    }
    r
}

/// Index of the first `c` in `a..b`, or `b`.
pub fn find_char(cs: &Vec<char>, a: usize, b: usize, c: char) -> (r: usize)
    requires
        a <= b <= cs.len(),
    ensures
        a <= r <= b,
        r - a == first_index(cs@.subrange(a as int, b as int), c),
{
    let mut i: usize = a;
    while i < b && cs[i] != c
        invariant
            a <= i <= b <= cs.len(),
            forall|t: int| a <= t < i ==> cs@[t] != c,
        decreases b - i,
    {
        i = i + 1;
    }
    proof {
        let s = cs@.subrange(a as int, b as int);
        assert forall|t: int| 0 <= t < i - a implies s[t] != c by {
            assert(s[t] == cs@[a + t]);
        }
        if i < b {
            assert(s[i - a] == cs@[i as int]);
        }
        lemma_first_index_is(s, c, i - a);
    }
    i
}

/// The ranges of `lines` within `cs`.
pub fn line_ranges(cs: &Vec<char>) -> (r: Vec<(usize, usize)>)
    ensures
        r.len() == lines(cs@).len(),
        forall|k: int| 0 <= k && k + 1 < r.len() ==> (#[trigger] r@[k]).1 <= r@[k + 1].0,
        forall|k: int|
            0 <= k < r.len() ==> (#[trigger] r@[k]).0 <= r@[k].1 <= cs.len() && cs@.subrange(
                r@[k].0 as int,
                r@[k].1 as int,
            ) == lines(cs@)[k],
{
    let n: usize = cs.len();
    let mut out: Vec<(usize, usize)> = Vec::new();
    let ghost mut done: Seq<Seq<char>> = seq![];
    let mut pos: usize = 0;
    proof {
        assert(cs@.subrange(0, n as int) =~= cs@);
    }
    while pos < n
        invariant
            n == cs.len(),
            pos <= n,
            done.len() == out.len(),
            forall|k: int| 0 <= k && k + 1 < out.len() ==> (#[trigger] out@[k]).1 <= out@[k + 1].0,
            forall|k: int| 0 <= k < out.len() ==> (#[trigger] out@[k]).1 <= pos,
            out.len() > 0 ==> out@[out.len() - 1].1 <= pos,
            done + lines(cs@.subrange(pos as int, n as int)) == lines(cs@),
            forall|k: int|
                0 <= k < out.len() ==> (#[trigger] out@[k]).0 <= out@[k].1 <= n && cs@.subrange(
                    out@[k].0 as int,
                    out@[k].1 as int,
                ) == done[k],
        decreases n - pos,
    {
        let j: usize = find_char(cs, pos, n, '\n');
        let ghost s = cs@.subrange(pos as int, n as int);
        if j == n {
            proof {
                assert(lines(s) == seq![s]);
                assert(done.push(s) + lines(cs@.subrange(n as int, n as int)) =~= done + lines(s));
            }
            out.push((pos, n));
            proof {
                done = done.push(s);
            }
            pos = n;
        } else {
            let mut e: usize = j;
            if e > pos && cs[e - 1] == '\r' {
                e = e - 1;
            }
            proof {
                let k = j - pos;
                assert(s.take(k) =~= cs@.subrange(pos as int, j as int));
                assert(strip_cr(s.take(k)) =~= cs@.subrange(pos as int, e as int));
                assert(s.skip(k + 1) =~= cs@.subrange(j + 1, n as int));
                assert(done.push(cs@.subrange(pos as int, e as int)) + lines(
                    cs@.subrange(j + 1, n as int),
                ) =~= done + lines(s));
            }
            out.push((pos, e));
            proof {
                done = done.push(cs@.subrange(pos as int, e as int));
            }
            pos = j + 1;
        }
    }
    proof {
        assert(lines(cs@.subrange(n as int, n as int)) == Seq::<Seq<char>>::empty());
        assert(done + Seq::<Seq<char>>::empty() =~= done);
    }
    out
}

/// `haystack` contains `needle`.
pub fn contains_text(hay: &Vec<char>, needle: &Vec<char>) -> (r: bool)
    ensures
        r == contains(hay@, needle@),
{
    if needle.len() == 0 {
        proof {
            assert(hay@.subrange(0, 0) =~= needle@);
            assert(occurs_at(hay@, needle@, 0));
        }
        return true;
    }
    if needle.len() > hay.len() {
        proof {
            assert forall|i: int| !occurs_at(hay@, needle@, i) by {}
        }
        return false;
    }
    let last: usize = hay.len() - needle.len();
    let mut i: usize = 0;
    while i <= last
        invariant
            last == hay.len() - needle.len(),
            1 <= needle.len() <= hay.len(),
            0 <= i <= last + 1,
            forall|t: int| 0 <= t < i ==> !occurs_at(hay@, needle@, t),
        decreases last + 1 - i,
    {
        if range_eq(hay, i, i + needle.len(), needle) {
            proof {
                assert(occurs_at(hay@, needle@, i as int));
            }
            return true;
        }
        i = i + 1;
    }
    proof {
        assert forall|t: int| !occurs_at(hay@, needle@, t) by {
            if 0 <= t < i {
            } else {
            }
        }
    }
    false
}

/// `str::eq_ignore_ascii_case` between `cs[a..b]` and `p`.
pub fn range_eq_ignore_ascii_case(cs: &Vec<char>, a: usize, b: usize, p: &Vec<char>) -> (r: bool)
    requires
        a <= b <= cs.len(),
    ensures
        r == eq_ignore_ascii_case(cs@.subrange(a as int, b as int), p@),
{
    if b - a != p.len() {
        return false;
    }
    let mut i: usize = 0;
    while i < p.len()
        invariant
            b - a == p.len(),
            a <= b <= cs.len(),
            0 <= i <= p.len(),
            forall|t: int| 0 <= t < i ==> ascii_lower(cs@[a + t]) == ascii_lower(p@[t]),
        decreases p.len() - i,
    {
        if lower_char(cs[a + i]) != lower_char(p[i]) {
            proof {
                assert(cs@.subrange(a as int, b as int)[i as int] == cs@[a + i]);
            }
            return false;
        }
        i = i + 1;
    }
    proof {
        let s = cs@.subrange(a as int, b as int);
        assert forall|t: int| 0 <= t < s.len() implies ascii_lower(s[t]) == ascii_lower(p@[t]) by {
            assert(s[t] == cs@[a + t]);
        }
    }
    true
}

/// ASCII lower-casing of one character.
pub fn lower_char(c: char) -> (r: char)
    ensures
        r == ascii_lower(c),
{
    if 'A' <= c && c <= 'Z' {
        let u: u32 = c as u32;
        proof {
            assert(65 <= u <= 90);
        }
        let l: u32 = u + 32;
        char_from_ascii(l)
    } else {
        c
    }
}

/// The character of an ASCII code point.
fn char_from_ascii(u: u32) -> (c: char)
    requires
        97 <= u <= 122,
    ensures
        c == u as char,
{
    let b: u8 = u as u8;
    let c = b as char;
    c
}

/// A `String` holding `s`.
pub fn string_of(s: &str) -> (r: String)
    ensures
        r@ == s@,
{
    String::from_str(s)
}

/// `String` built from the characters `cs[a..b]` of the text `src`.
pub fn slice_of(src: &str, a: usize, b: usize) -> (r: &str)
    requires
        a <= b <= src@.len(),
    ensures
        r@ == src@.subrange(a as int, b as int),
{
    src.substring_char(a, b)
}

/// `parts.join(sep)`.
pub fn join_strings(parts: &Vec<String>, sep: &str) -> (r: String)
    ensures
        r@ == join(parts.deep_view(), sep@),
{
    let mut out = String::new();
    let mut k: usize = 0;
    while k < parts.len()
        invariant
            0 <= k <= parts.len(),
            out@ == join(parts.deep_view().take(k as int), sep@),
        decreases parts.len() - k,
    {
        proof {
            let v = parts.deep_view();
            assert(v.take(k + 1) =~= v.take(k as int).push(v[k as int]));
            lemma_join_push(v.take(k as int), sep@, v[k as int]);
        }
        if k > 0 {
            out.append(sep);
        }
        out.append(parts[k].as_str());
        k = k + 1;
    }
    proof {
        assert(parts.deep_view().take(parts.len() as int) =~= parts.deep_view());
    }
    out
}

/// The decimal digits of `n`.
pub fn decimal_string(n: u64) -> (r: String)
    ensures
        r@ == decimal(n as nat),
    decreases n,
{
    if n < 10 {
        string_of(digit_str(n))
    } else {
        let mut r = decimal_string(n / 10);
        r.append(digit_str(n % 10));
        r
    }
}

fn digit_str(d: u64) -> (s: &'static str)
    requires
        d < 10,
    ensures
        s@ == seq![digit_char(d as nat)],
{
    proof {
        reveal_strlit("0");
        reveal_strlit("1");
        reveal_strlit("2");
        reveal_strlit("3");
        reveal_strlit("4");
        reveal_strlit("5");
        reveal_strlit("6");
        reveal_strlit("7");
        reveal_strlit("8");
        reveal_strlit("9");
    }
    if d == 0 {
        "0"
    } else if d == 1 {
        "1"
    } else if d == 2 {
        "2"
    } else if d == 3 {
        "3"
    } else if d == 4 {
        "4"
    } else if d == 5 {
        "5"
    } else if d == 6 {
        "6"
    } else if d == 7 {
        "7"
    } else if d == 8 {
        "8"
    } else {
        "9"
    }
}

} // verus!
