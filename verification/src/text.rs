//! Character-level text handling: name normalisation, word splitting and
//! substring search.

use vstd::prelude::*;

verus! {

/// What `char::is_alphanumeric` answers for a character outside ASCII
/// (Unicode alphabetic and numeric tables).
pub uninterp spec fn unicode_alphanumeric(c: char) -> bool;

/// ASCII letters and digits.
pub open spec fn ascii_alphanumeric(c: char) -> bool {
    ('0' <= c && c <= '9') || ('a' <= c && c <= 'z') || ('A' <= c && c <= 'Z')
}

/// Alphanumeric in the Unicode sense: within ASCII the letters and digits.
pub open spec fn alphanumeric(c: char) -> bool {
    if (c as u32) < 128 {
        ascii_alphanumeric(c)
    } else {
        unicode_alphanumeric(c)
    }
}

/// `char::is_alphanumeric` is true exactly for the characters that Unicode
/// classes as alphabetic or numeric; within ASCII these are the letters and
/// digits.
pub assume_specification[ char::is_alphanumeric ](c: char) -> (r: bool)
    ensures
        r == alphanumeric(c),
        (c as u32) >= 128 ==> r == unicode_alphanumeric(c),
;

/// The ASCII lower-case form of a character.
pub open spec fn ascii_lower(c: char) -> char {
    if 'A' <= c && c <= 'Z' {
        ((c as u32) + 32) as char
    } else {
        c
    }
}

/// The ASCII lower-case form of a character: 'A'..='Z' become 'a'..='z',
/// every other character is kept.
pub fn ascii_lowercase(c: char) -> (r: char)
    ensures
        r == ascii_lower(c),
{
    if 'A' <= c && c <= 'Z' {
        let n: u8 = c as u8;
        let l: u8 = n + 32;
        l as char
    } else {
        c
    }
}

/// `String::push` appends one character.
pub assume_specification[ String::push ](s: &mut String, ch: char)
    ensures
        final(s)@ == old(s)@.push(ch),
;

/// The characters of a string, in order.
pub fn chars_of(s: &str) -> (v: Vec<char>)
    ensures
        v@ == s@,
{
    let mut v: Vec<char> = Vec::new();
    for c in it: s.chars()
        invariant
            v@ == it.seq().take(it.index() as int),
    {
        v.push(c);
    }
    v
}


/// The maximal runs of consecutive characters of `s` that satisfy `keep`,
/// from left to right.
pub open spec fn runs(s: Seq<char>, keep: spec_fn(char) -> bool) -> Seq<Seq<char>>
    decreases s.len(),
{
    if s.len() == 0 {
        Seq::empty()
    } else {
        let w = runs(s.drop_last(), keep);
        let c = s.last();
        if !keep(c) {
            w
        } else if s.len() >= 2 && keep(s[s.len() - 2]) {
            w.update(w.len() - 1, w.last().push(c))
        } else {
            w.push(seq![c])
        }
    }
}

/// Words joined by single spaces.
pub open spec fn join_words(ws: Seq<Seq<char>>) -> Seq<char>
    decreases ws.len(),
{
    if ws.len() == 0 {
        Seq::empty()
    } else if ws.len() == 1 {
        ws[0]
    } else {
        join_words(ws.drop_last()) + seq![' '] + ws.last()
    }
}

/// A word with its ASCII letters lowered.
pub open spec fn lower_word(w: Seq<char>) -> Seq<char> {
    w.map_values(|c: char| ascii_lower(c))
}

/// The normalised form of a name: its runs of alphanumeric characters,
/// ASCII-lowered, joined by single spaces.
pub open spec fn prepared(s: Seq<char>) -> Seq<char> {
    join_words(runs(s, |c: char| alphanumeric(c)).map_values(|w: Seq<char>| lower_word(w)))
}

/// A run ends at the last character of `s` exactly when that character is kept.
pub proof fn lemma_runs_nonempty(s: Seq<char>, keep: spec_fn(char) -> bool)
    requires
        s.len() > 0,
        keep(s.last()),
    ensures
        runs(s, keep).len() > 0,
    decreases s.len(),
{
    if s.len() >= 2 && keep(s[s.len() - 2]) {
        assert(s.drop_last().last() == s[s.len() - 2]);
        lemma_runs_nonempty(s.drop_last(), keep);
    }
}

/// Joining after extending the last word extends the joined text.
pub proof fn lemma_join_extend_last(ws: Seq<Seq<char>>, c: char)
    requires
        ws.len() > 0,
    ensures
        join_words(ws.update(ws.len() - 1, ws.last().push(c))) == join_words(ws).push(c),
{
    let ws2 = ws.update(ws.len() - 1, ws.last().push(c));
    if ws.len() == 1 {
        assert(ws2[0] == ws[0].push(c));
    } else {
        assert(ws2.drop_last() =~= ws.drop_last());
        assert(join_words(ws2) =~= join_words(ws).push(c));
    }
}

/// Joining after adding a word appends a space (if needed) and the word.
pub proof fn lemma_join_push(ws: Seq<Seq<char>>, w: Seq<char>)
    ensures
        join_words(ws.push(w)) == if ws.len() == 0 {
            w
        } else {
            join_words(ws) + seq![' '] + w
        },
{
    assert(ws.push(w).drop_last() =~= ws);
}

/// Normalises a name for searching: every run of alphanumeric characters
/// becomes a word, lowered to ASCII lower case, and the words are joined by
/// single spaces.
pub fn prepare_name(s: &str) -> (r: String)
    ensures
        r@ == prepared(s@),
{
    let chars = chars_of(s);
    let ghost keep = |c: char| alphanumeric(c);
    let ghost lw = |w: Seq<char>| lower_word(w);
    let mut out = String::new();
    let mut prev_alnum = false;
    let mut started = false;
    let mut i: usize = 0;
    while i < chars.len()
        invariant
            i <= chars.len(),
            chars@ == s@,
            keep == (|c: char| alphanumeric(c)),
            lw == (|w: Seq<char>| lower_word(w)),
            out@ == join_words(runs(chars@.take(i as int), keep).map_values(lw)),
            (out@.len() == 0) == (runs(chars@.take(i as int), keep).len() == 0),
            prev_alnum == (i > 0 && alphanumeric(chars@[i - 1])),
            started == (out@.len() > 0),
        decreases chars.len() - i,
    {
        let c = chars[i];
        let ghost pre = chars@.take(i as int);
        let ghost p = chars@.take(i + 1);
        let ghost w = runs(pre, keep);
        assert(p.drop_last() =~= pre);
        assert(p.last() == c);
        if c.is_alphanumeric() {
            let lc = ascii_lowercase(c);
            if prev_alnum {
                assert(p[p.len() - 2] == chars@[i - 1]);
                proof {
                    lemma_runs_nonempty(pre, keep);
                    assert(runs(p, keep) == w.update(w.len() - 1, w.last().push(c)));
                    assert(lower_word(w.last().push(c)) =~= lower_word(w.last()).push(lc));
                    assert(runs(p, keep).map_values(lw) =~= w.map_values(lw).update(
                        w.len() - 1,
                        w.map_values(lw).last().push(lc),
                    ));
                    lemma_join_extend_last(w.map_values(lw), lc);
                }
            } else {
                if started {
                    out.push(' ');
                }
                proof {
                    if i > 0 {
                        assert(p[p.len() - 2] == chars@[i - 1]);
                    }
                    assert(runs(p, keep) == w.push(seq![c]));
                    assert(lower_word(seq![c]) =~= seq![lc]);
                    assert(runs(p, keep).map_values(lw) =~= w.map_values(lw).push(seq![lc]));
                    lemma_join_push(w.map_values(lw), seq![lc]);
                }
            }
            out.push(lc);
            prev_alnum = true;
            started = true;
        } else {
            assert(runs(p, keep) == w);
            prev_alnum = false;
        }
        i = i + 1;
    }
    assert(chars@.take(chars.len() as int) =~= s@);
    out
}


/// Every run is a non-empty sequence of kept characters.
pub proof fn lemma_runs_words(s: Seq<char>, keep: spec_fn(char) -> bool)
    ensures
        forall|k: int|
            0 <= k < runs(s, keep).len() ==> #[trigger] runs(s, keep)[k].len() > 0 && (forall|j: int|
                0 <= j < runs(s, keep)[k].len() ==> keep(#[trigger] runs(s, keep)[k][j])),
    decreases s.len(),
{
    if s.len() > 0 {
        lemma_runs_words(s.drop_last(), keep);
        let w = runs(s.drop_last(), keep);
        let c = s.last();
        if keep(c) && s.len() >= 2 && keep(s[s.len() - 2]) {
            assert(s.drop_last().last() == s[s.len() - 2]);
            lemma_runs_nonempty(s.drop_last(), keep);
            let r = runs(s, keep);
            assert forall|k: int| 0 <= k < r.len() implies #[trigger] r[k].len() > 0 && (forall|
                j: int,
            | 0 <= j < r[k].len() ==> keep(#[trigger] r[k][j])) by {
                if k == w.len() - 1 {
                    assert(r[k] == w.last().push(c));
                    assert forall|j: int| 0 <= j < r[k].len() implies keep(#[trigger] r[k][j]) by {
                        if j < w.last().len() {
                            assert(r[k][j] == w[k][j]);
                        }
                    }
                } else {
                    assert(r[k] == w[k]);
                }
            }
        } else if keep(c) {
            let r = runs(s, keep);
            assert forall|k: int| 0 <= k < r.len() implies #[trigger] r[k].len() > 0 && (forall|
                j: int,
            | 0 <= j < r[k].len() ==> keep(#[trigger] r[k][j])) by {
                if k < w.len() {
                    assert(r[k] == w[k]);
                } else {
                    assert(r[k] == seq![c]);
                }
            }
        }
    }
}

/// Appending a word of kept characters after a break adds exactly that word.
pub proof fn lemma_runs_append_word(t: Seq<char>, w: Seq<char>, keep: spec_fn(char) -> bool)
    requires
        t.len() == 0 || !keep(t.last()),
        w.len() > 0,
        forall|j: int| 0 <= j < w.len() ==> keep(#[trigger] w[j]),
    ensures
        runs(t + w, keep) == runs(t, keep).push(w),
    decreases w.len(),
{
    let s = t + w;
    if w.len() == 1 {
        assert(s.drop_last() =~= t);
        if t.len() > 0 {
            assert(s[s.len() - 2] == t.last());
        }
        assert(seq![w[0]] =~= w);
    } else {
        let w0 = w.drop_last();
        assert(s.drop_last() =~= t + w0);
        lemma_runs_append_word(t, w0, keep);
        assert(s[s.len() - 2] == w[w.len() - 2]);
        assert(w0.push(w.last()) =~= w);
        assert(runs(t, keep).push(w0).update(runs(t, keep).len() as int, w) =~= runs(t, keep).push(w));
    }
}

/// Splitting joined words gives the words back, when they are non-empty and
/// hold only kept characters, and a space is not kept.
pub proof fn lemma_runs_of_join(ws: Seq<Seq<char>>, keep: spec_fn(char) -> bool)
    requires
        !keep(' '),
        forall|k: int| 0 <= k < ws.len() ==> #[trigger] ws[k].len() > 0,
        forall|k: int, j: int| 0 <= k < ws.len() && 0 <= j < ws[k].len() ==> keep(#[trigger] ws[k][j]),
    ensures
        runs(join_words(ws), keep) == ws,
    decreases ws.len(),
{
    if ws.len() == 0 {
        assert(runs(join_words(ws), keep) =~= ws);
    } else if ws.len() == 1 {
        let w = ws[0];
        assert forall|j: int| 0 <= j < w.len() implies keep(#[trigger] w[j]) by {
            assert(w[j] == ws[0][j]);
        }
        lemma_runs_append_word(Seq::empty(), w, keep);
        assert(Seq::<char>::empty() + w =~= w);
        assert(Seq::<Seq<char>>::empty().push(w) =~= ws);
    } else {
        let init = ws.drop_last();
        let w = ws.last();
        lemma_runs_of_join(init, keep);
        let t = join_words(init) + seq![' '];
        assert(t.drop_last() =~= join_words(init));
        assert(runs(t, keep) == runs(join_words(init), keep));
        assert forall|j: int| 0 <= j < w.len() implies keep(#[trigger] w[j]) by {
            assert(w[j] == ws[ws.len() - 1][j]);
        }
        lemma_runs_append_word(t, w, keep);
        assert(init.push(w) =~= ws);
    }
}

/// Lowering an alphanumeric character keeps it alphanumeric and is stable.
pub proof fn lemma_ascii_lower(c: char)
    ensures
        alphanumeric(c) ==> alphanumeric(ascii_lower(c)),
        ascii_lower(ascii_lower(c)) == ascii_lower(c),
        ascii_lower(c) != ' ' || c == ' ',
{
}

/// Normalising a normalised name changes nothing.
pub proof fn lemma_prepared_idempotent(s: Seq<char>)
    ensures
        prepared(prepared(s)) == prepared(s),
{
    let keep = |c: char| alphanumeric(c);
    let lw = |w: Seq<char>| lower_word(w);
    let r = runs(s, keep);
    let ws = r.map_values(lw);
    lemma_runs_words(s, keep);
    assert forall|k: int, j: int| 0 <= k < ws.len() && 0 <= j < ws[k].len() implies keep(
        #[trigger] ws[k][j],
    ) by {
        assert(ws[k][j] == ascii_lower(r[k][j]));
        assert(keep(r[k][j]));
        lemma_ascii_lower(r[k][j]);
    }
    assert forall|k: int| 0 <= k < ws.len() implies #[trigger] ws[k].len() > 0 by {
        assert(ws[k].len() == r[k].len());
    }
    assert(!keep(' '));
    lemma_runs_of_join(ws, keep);
    assert forall|k: int| 0 <= k < ws.len() implies #[trigger] lw(ws[k]) == ws[k] by {
        assert forall|j: int| 0 <= j < ws[k].len() implies lw(ws[k])[j] == ws[k][j] by {
            lemma_ascii_lower(r[k][j]);
        }
        assert(lw(ws[k]) =~= ws[k]);
    }
    assert(ws.map_values(lw) =~= ws);
}


/// The characters with the Unicode White_Space property: tab, line feed,
/// vertical tab, form feed, carriage return, space, next line, no-break
/// space, ogham space mark, the spaces U+2000 to U+200A, line and paragraph
/// separators, narrow no-break space, medium mathematical space and
/// ideographic space.
pub open spec fn whitespace(c: char) -> bool {
    let n = c as u32;
    ||| 0x09 <= n <= 0x0D
    ||| n == 0x20
    ||| n == 0x85
    ||| n == 0xA0
    ||| n == 0x1680
    ||| 0x2000 <= n <= 0x200A
    ||| n == 0x2028
    ||| n == 0x2029
    ||| n == 0x202F
    ||| n == 0x205F
    ||| n == 0x3000
}

/// Whether the character has the Unicode White_Space property.
pub fn is_space(c: char) -> (r: bool)
    ensures
        r == whitespace(c),
{
    let n: u32 = c as u32;
    (0x09 <= n && n <= 0x0D) || n == 0x20 || n == 0x85 || n == 0xA0 || n == 0x1680 || (0x2000 <= n && n
        <= 0x200A) || n == 0x2028 || n == 0x2029 || n == 0x202F || n == 0x205F || n == 0x3000
}

/// What `str::to_lowercase` makes of a string (Unicode lower-case mapping).
pub uninterp spec fn lowercase(s: Seq<char>) -> Seq<char>;

/// `str::to_lowercase` returns the Unicode lower-case form of the string;
/// on a string of ASCII characters that maps 'A'..='Z' to 'a'..='z' and
/// leaves every other character unchanged. Beyond ASCII the mapping (which
/// follows the Unicode tables and, for a capital sigma, the context) is
/// named, not spelled out.
pub assume_specification[ str::to_lowercase ](s: &str) -> (r: String)
    ensures
        r@ == lowercase(s@),
        (forall|i: int| 0 <= i < s@.len() ==> (#[trigger] s@[i] as u32) < 128) ==> r@ == lower_word(s@),
;

/// The words of a text: its maximal runs of non-whitespace characters.
pub open spec fn words(s: Seq<char>) -> Seq<Seq<char>> {
    runs(s, |c: char| !whitespace(c))
}

/// Runs on both sides of a character that is not kept are the runs of each
/// side, in order.
pub proof fn lemma_runs_concat(a: Seq<char>, sep: char, b: Seq<char>, keep: spec_fn(char) -> bool)
    requires
        !keep(sep),
    ensures
        runs(a + seq![sep] + b, keep) == runs(a, keep) + runs(b, keep),
    decreases b.len(),
{
    let s = a + seq![sep] + b;
    if b.len() == 0 {
        assert(s.drop_last() =~= a);
        assert(runs(a, keep) + runs(b, keep) =~= runs(a, keep));
    } else {
        let b0 = b.drop_last();
        let c = b.last();
        assert(s.drop_last() =~= a + seq![sep] + b0);
        lemma_runs_concat(a, sep, b0, keep);
        let x = runs(a, keep);
        let y = runs(b0, keep);
        if keep(c) {
            if b.len() >= 2 && keep(b[b.len() - 2]) {
                assert(s[s.len() - 2] == b[b.len() - 2]);
                assert(b0.last() == b[b.len() - 2]);
                lemma_runs_nonempty(b0, keep);
                assert((x + y).update((x + y).len() - 1, (x + y).last().push(c)) =~= x + y.update(
                    y.len() - 1,
                    y.last().push(c),
                ));
            } else {
                if b.len() >= 2 {
                    assert(s[s.len() - 2] == b[b.len() - 2]);
                } else {
                    assert(s[s.len() - 2] == sep);
                }
                assert((x + y).push(seq![c]) =~= x + y.push(seq![c]));
            }
        }
    }
}

/// The words of two texts joined by a space are the words of the first
/// followed by those of the second.
pub proof fn lemma_words_concat(a: Seq<char>, b: Seq<char>)
    ensures
        words(a + seq![' '] + b) == words(a) + words(b),
{
    lemma_runs_concat(a, ' ', b, |c: char| !whitespace(c));
}

/// The contents of a list of strings.
pub open spec fn strings_view(v: Seq<String>) -> Seq<Seq<char>> {
    v.map_values(|x: String| x@)
}

/// A string holding the characters `chars[lo..hi]`.
pub fn string_from_chars(chars: &Vec<char>, lo: usize, hi: usize) -> (r: String)
    requires
        lo <= hi <= chars.len(),
    ensures
        r@ == chars@.subrange(lo as int, hi as int),
{
    let mut r = String::new();
    let mut i = lo;
    while i < hi
        invariant
            lo <= i <= hi <= chars.len(),
            r@ == chars@.subrange(lo as int, i as int),
        decreases hi - i,
    {
        r.push(chars[i]);
        assert(chars@.subrange(lo as int, i + 1) =~= chars@.subrange(lo as int, i as int).push(
            chars@[i as int],
        ));
        i = i + 1;
    }
    r
}

/// Splits a text into its whitespace-separated words.
pub fn split_whitespace(s: &str) -> (v: Vec<String>)
    ensures
        strings_view(v@) == words(s@),
{
    let chars = chars_of(s);
    let ghost keep = |c: char| !whitespace(c);
    let mut v: Vec<String> = Vec::new();
    let mut cur = String::new();
    let mut in_word = false;
    let mut i: usize = 0;
    while i < chars.len()
        invariant
            i <= chars.len(),
            chars@ == s@,
            keep == (|c: char| !whitespace(c)),
            in_word == (i > 0 && keep(chars@[i - 1])),
            in_word ==> runs(chars@.take(i as int), keep) == strings_view(v@).push(cur@),
            !in_word ==> runs(chars@.take(i as int), keep) == strings_view(v@),
        decreases chars.len() - i,
    {
        let c = chars[i];
        let ghost pre = chars@.take(i as int);
        let ghost p = chars@.take(i + 1);
        assert(p.drop_last() =~= pre);
        assert(p.last() == c);
        if i > 0 {
            assert(p[p.len() - 2] == chars@[i - 1]);
        }
        if !is_space(c) {
            if in_word {
                let ghost w = runs(pre, keep);
                cur.push(c);
                assert(runs(p, keep) =~= w.update(w.len() - 1, w.last().push(c)));
            } else {
                cur = String::new();
                cur.push(c);
                assert(seq![c] =~= cur@);
            }
            in_word = true;
        } else {
            if in_word {
                let ghost old_v = strings_view(v@);
                let w = cur;
                v.push(w);
                cur = String::new();
                assert(strings_view(v@) =~= old_v.push(w@));
            }
            in_word = false;
        }
        i = i + 1;
    }
    if in_word {
        let ghost old_v = strings_view(v@);
        let w = cur;
        v.push(w);
        assert(strings_view(v@) =~= old_v.push(w@));
    }
    assert(chars@.take(chars.len() as int) =~= s@);
    v
}

/// `w` occurs in `s` starting at position `i`.
pub open spec fn occurs_at(s: Seq<char>, w: Seq<char>, i: int) -> bool {
    0 <= i && i + w.len() <= s.len() && s.subrange(i, i + w.len()) == w
}

/// `w` occurs somewhere in `s`.
pub open spec fn occurs_in(s: Seq<char>, w: Seq<char>) -> bool {
    exists|i: int| occurs_at(s, w, i)
}

/// Whether `w` occurs in `s` starting at position `i`.
fn matches_at(s: &Vec<char>, w: &Vec<char>, i: usize) -> (r: bool)
    requires
        i + w.len() <= s.len(),
    ensures
        r == occurs_at(s@, w@, i as int),
{
    let mut j: usize = 0;
    while j < w.len()
        invariant
            i + w.len() <= s.len(),
            j <= w.len(),
            forall|k: int| 0 <= k < j ==> s@[i + k] == w@[k],
        decreases w.len() - j,
    {
        if s[i + j] != w[j] {
            assert(s@.subrange(i as int, i + w.len())[j as int] != w@[j as int]);
            return false;
        }
        j = j + 1;
    }
    assert(s@.subrange(i as int, i + w.len()) =~= w@);
    true
}

/// Whether the characters of `w` occur consecutively in `s`.
pub fn contains_chars(s: &Vec<char>, w: &Vec<char>) -> (r: bool)
    ensures
        r == occurs_in(s@, w@),
{
    if w.len() > s.len() {
        assert(forall|i: int| !occurs_at(s@, w@, i));
        return false;
    }
    let last = s.len() - w.len();
    let mut i: usize = 0;
    while i < last
        invariant
            last + w.len() == s.len(),
            i <= last,
            forall|k: int| 0 <= k < i ==> !occurs_at(s@, w@, k),
        decreases last - i,
    {
        if matches_at(s, w, i) {
            return true;
        }
        i = i + 1;
    }
    if matches_at(s, w, last) {
        return true;
    }
    assert forall|k: int| !occurs_at(s@, w@, k) by {
        if 0 <= k < i {
        }
    }
    false
}

/// The text without leading whitespace.
pub open spec fn trim_start(s: Seq<char>) -> Seq<char>
    decreases s.len(),
{
    if s.len() > 0 && whitespace(s[0]) {
        trim_start(s.drop_first())
    } else {
        s
    }
}

/// The text without trailing whitespace.
pub open spec fn trim_end(s: Seq<char>) -> Seq<char>
    decreases s.len(),
{
    if s.len() > 0 && whitespace(s.last()) {
        trim_end(s.drop_last())
    } else {
        s
    }
}

/// The text without leading and trailing whitespace.
pub open spec fn trimmed(s: Seq<char>) -> Seq<char> {
    trim_end(trim_start(s))
}

proof fn lemma_trim_start_skip(s: Seq<char>, i: int)
    requires
        0 <= i <= s.len(),
        forall|k: int| 0 <= k < i ==> whitespace(#[trigger] s[k]),
    ensures
        trim_start(s) == trim_start(s.subrange(i, s.len() as int)),
    decreases i,
{
    if i > 0 {
        lemma_trim_start_skip(s.drop_first(), i - 1);
        assert(s.drop_first().subrange(i - 1, s.len() - 1) =~= s.subrange(i, s.len() as int));
    } else {
        assert(s.subrange(0, s.len() as int) =~= s);
    }
}

proof fn lemma_trim_end_skip(s: Seq<char>, j: int)
    requires
        0 <= j <= s.len(),
        forall|k: int| j <= k < s.len() ==> whitespace(#[trigger] s[k]),
    ensures
        trim_end(s) == trim_end(s.subrange(0, j)),
    decreases s.len() - j,
{
    if j < s.len() {
        lemma_trim_end_skip(s.drop_last(), j);
        assert(s.drop_last().subrange(0, j) =~= s.subrange(0, j));
    } else {
        assert(s.subrange(0, j) =~= s);
    }
}

/// Removes leading and trailing whitespace.
pub fn trim(s: &str) -> (r: String)
    ensures
        r@ == trimmed(s@),
{
    let chars = chars_of(s);
    let mut lo: usize = 0;
    while lo < chars.len() && is_space(chars[lo])
        invariant
            lo <= chars.len(),
            forall|k: int| 0 <= k < lo ==> whitespace(#[trigger] chars@[k]),
        decreases chars.len() - lo,
    {
        lo = lo + 1;
    }
    let mut hi: usize = chars.len();
    while hi > lo && is_space(chars[hi - 1])
        invariant
            lo <= hi <= chars.len(),
            forall|k: int| hi <= k < chars.len() ==> whitespace(#[trigger] chars@[k]),
        decreases hi - lo,
    {
        hi = hi - 1;
    }
    proof {
        lemma_trim_start_skip(chars@, lo as int);
        let rest = chars@.subrange(lo as int, chars.len() as int);
        if lo < chars.len() {
            assert(!whitespace(rest[0]));
        }
        assert(trim_start(rest) == rest);
        lemma_trim_end_skip(rest, hi - lo);
        assert(rest.subrange(0, hi - lo) =~= chars@.subrange(lo as int, hi as int));
        let mid = chars@.subrange(lo as int, hi as int);
        if hi > lo {
            assert(!whitespace(mid.last()));
        }
        assert(trim_end(mid) == mid);
    }
    string_from_chars(&chars, lo, hi)
}

} // verus!
