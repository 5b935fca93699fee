//! Character-level helpers shared by the parsers and formatters of the crate.
//!
//! Strings are handled as sequences of `char`, which is also how Verus views
//! `str` and `String`.
use vstd::prelude::*;

verus! {

/// The characters that have the Unicode `White_Space` property, which is what
/// `char::is_whitespace`, `str::trim` and `str::split_whitespace` use.
pub open spec fn is_space(c: char) -> bool {
    let v = c as u32;
    ||| 0x9 <= v && v <= 0xD
    ||| v == 0x20
    ||| v == 0x85
    ||| v == 0xA0
    ||| v == 0x1680
    ||| 0x2000 <= v && v <= 0x200A
    ||| v == 0x2028
    ||| v == 0x2029
    ||| v == 0x202F
    ||| v == 0x205F
    ||| v == 0x3000
}

pub fn is_space_char(c: char) -> (r: bool)
    ensures
        r == is_space(c),
{
    let v = c as u32;
    (0x9 <= v && v <= 0xD) || v == 0x20 || v == 0x85 || v == 0xA0 || v == 0x1680 || (0x2000 <= v
        && v <= 0x200A) || v == 0x2028 || v == 0x2029 || v == 0x202F || v == 0x205F || v == 0x3000
}

/// ASCII upper-casing: `a`..`z` become `A`..`Z`, every other character stays.
pub open spec fn upper(c: char) -> char {
    if 'a' <= c && c <= 'z' {
        ((c as int) - 32) as char
    } else {
        c
    }
}

pub fn ascii_upper(c: char) -> (r: char)
    ensures
        r == upper(c),
{
    if 'a' <= c && c <= 'z' {
        let b: u8 = c as u8;
        (b - 32) as char
    } else {
        c
    }
}

/// ASCII hexadecimal digits, in either case.
pub open spec fn is_hex(c: char) -> bool {
    ||| '0' <= c && c <= '9'
    ||| 'a' <= c && c <= 'f'
    ||| 'A' <= c && c <= 'F'
}

pub fn is_hex_char(c: char) -> (r: bool)
    ensures
        r == is_hex(c),
{
    ('0' <= c && c <= '9') || ('a' <= c && c <= 'f') || ('A' <= c && c <= 'F')
}

/// ASCII letters and digits.
pub open spec fn is_alphanumeric(c: char) -> bool {
    ||| '0' <= c && c <= '9'
    ||| 'a' <= c && c <= 'z'
    ||| 'A' <= c && c <= 'Z'
}

pub fn is_alphanumeric_char(c: char) -> (r: bool)
    ensures
        r == is_alphanumeric(c),
{
    ('0' <= c && c <= '9') || ('a' <= c && c <= 'z') || ('A' <= c && c <= 'Z')
}

/// The string without its leading white space.
pub open spec fn trim_start(s: Seq<char>) -> Seq<char>
    decreases s.len(),
{
    if s.len() > 0 && is_space(s[0]) {
        trim_start(s.drop_first())
    } else {
        s
    }
}

/// The string without its trailing white space.
pub open spec fn trim_end(s: Seq<char>) -> Seq<char>
    decreases s.len(),
{
    if s.len() > 0 && is_space(s.last()) {
        trim_end(s.drop_last())
    } else {
        s
    }
}

/// The string without leading and trailing white space, as `str::trim` gives it.
pub open spec fn trim(s: Seq<char>) -> Seq<char> {
    trim_end(trim_start(s))
}

proof fn lemma_trim_start_skip(s: Seq<char>, i: int)
    requires
        0 <= i <= s.len(),
        forall|k: int| 0 <= k < i ==> is_space(#[trigger] s[k]),
        i == s.len() || !is_space(s[i]),
    ensures
        trim_start(s) == s.skip(i),
    decreases i,
{
    if i == 0 {
        assert(s.skip(0) =~= s);
    } else {
        let t = s.drop_first();
        assert forall|k: int| 0 <= k < i - 1 implies is_space(#[trigger] t[k]) by {
            assert(t[k] == s[k + 1]);
        }
        if i < s.len() {
            assert(t[i - 1] == s[i]);
        }
        lemma_trim_start_skip(t, i - 1);
        assert(t.skip(i - 1) =~= s.skip(i));
    }
}

proof fn lemma_trim_end_take(s: Seq<char>, j: int)
    requires
        0 <= j <= s.len(),
        forall|k: int| j <= k < s.len() ==> is_space(#[trigger] s[k]),
        j == 0 || !is_space(s[j - 1]),
    ensures
        trim_end(s) == s.take(j),
    decreases s.len() - j,
{
    if j == s.len() {
        assert(s.take(j) =~= s);
        if s.len() > 0 {
            assert(s.last() == s[j - 1]);
        }
    } else {
        let t = s.drop_last();
        assert(is_space(s[s.len() - 1]));
        assert forall|k: int| j <= k < t.len() implies is_space(#[trigger] t[k]) by {
            assert(t[k] == s[k]);
        }
        if j > 0 {
            assert(t[j - 1] == s[j - 1]);
        }
        lemma_trim_end_take(t, j);
        assert(t.take(j) =~= s.take(j));
    }
}

/// Finds the bounds of the trimmed part of a character sequence.
pub fn trim_bounds(v: &Vec<char>) -> (r: (usize, usize))
    ensures
        r.0 <= r.1 <= v@.len(),
        v@.subrange(r.0 as int, r.1 as int) == trim(v@),
{
    let n = v.len();
    let mut i: usize = 0;
    while i < n && is_space_char(v[i])
        invariant
            i <= n,
            n == v@.len(),
            forall|k: int| 0 <= k < i ==> is_space(#[trigger] v@[k]),
        decreases n - i,
    {
        i = i + 1;
    }
    proof {
        lemma_trim_start_skip(v@, i as int);
    }
    let mut j: usize = n;
    while j > i && is_space_char(v[j - 1])
        invariant
            i <= j <= n,
            n == v@.len(),
            forall|k: int| j <= k < n ==> is_space(#[trigger] v@[k]),
        decreases j,
    {
        j = j - 1;
    }
    proof {
        let t = v@.skip(i as int);
        assert forall|k: int| j - i <= k < t.len() implies is_space(#[trigger] t[k]) by {
            assert(t[k] == v@[k + i]);
        }
        if j > i {
            assert(t[j - i - 1] == v@[j - 1]);
        }
        lemma_trim_end_take(t, j - i);
        assert(t.take(j - i) =~= v@.subrange(i as int, j as int));
    }
    (i, j)
}

/// The character sequence of an optional string.
pub open spec fn opt_seq(o: Option<String>) -> Option<Seq<char>> {
    match o {
        Some(s) => Some(s@),
        None => None,
    }
}

/// Copies an optional string.
pub fn clone_opt_string(o: &Option<String>) -> (r: Option<String>)
    ensures
        opt_seq(r) == opt_seq(*o),
{
    match o {
        Some(s) => Some(s.clone()),
        None => None,
    }
}

/// Turns the characters of a string slice into a vector.
pub fn to_chars(s: &str) -> (v: Vec<char>)
    ensures
        v@ == s@,
{
    let mut v: Vec<char> = Vec::new();
    for c in it: s.chars()
        invariant
            v@ == it.seq().take(it.index()),
    {
        v.push(c);
    }
    proof {
        broadcast use vstd::string::group_string_axioms;

    }
    assert(v@ =~= s@);
    v
}

/// Appends one character to a string (`String::push`).
#[verifier::external_body]
pub(crate) fn push_char(s: &mut String, c: char)
    ensures
        final(s)@ == old(s)@.push(c),
{
    s.push(c);
}

/// Builds a string from a sequence of characters.
pub fn from_chars(v: &[char]) -> (s: String)
    ensures
        s@ == v@,
{
    let mut s = String::new();
    let n = v.len();
    let mut i: usize = 0;
    while i < n
        invariant
            i <= n,
            n == v@.len(),
            s@ == v@.take(i as int),
        decreases n - i,
    {
        push_char(&mut s, v[i]);
        assert(v@.take(i + 1) =~= v@.take(i as int).push(v@[i as int]));
        i = i + 1;
    }
    assert(v@.take(n as int) =~= v@);
    s
}

/// Appends all characters of a string slice to a character vector.
pub fn push_str(out: &mut Vec<char>, s: &str)
    ensures
        final(out)@ == old(out)@ + s@,
{
    let mut chars = to_chars(s);
    out.append(&mut chars);
}

/// The texts of a list of strings.
pub open spec fn string_views(v: Seq<String>) -> Seq<Seq<char>> {
    v.map_values(|s: String| s@)
}

/// `a` followed by `b`.
pub fn concat_str(a: &str, b: &str) -> (r: String)
    ensures
        r@ == a@ + b@,
{
    let mut out = to_chars(a);
    push_str(&mut out, b);
    from_chars(out.as_slice())
}

/// Adds a line at the end of a list of lines.
pub fn push_line(out: &mut Vec<String>, line: String)
    ensures
        string_views(final(out)@) == string_views(old(out)@).push(line@),
{
    let ghost before = string_views(out@);
    out.push(line);
    assert(string_views(out@) =~= before.push(out@.last()@));
}

/// Adds lines at the end of a list of lines.
pub fn append_lines(out: &mut Vec<String>, lines: Vec<String>)
    ensures
        string_views(final(out)@) == string_views(old(out)@) + string_views(lines@),
{
    let ghost before = string_views(out@);
    let ghost added = string_views(lines@);
    let mut lines = lines;
    out.append(&mut lines);
    assert(string_views(out@) =~= before + added);
}

/// The decimal digit character for a value below ten.
pub open spec fn digit(d: nat) -> char {
    ((48 + d) as int) as char
}

/// The decimal representation of a natural number, without leading zeros.
pub open spec fn decimal(n: nat) -> Seq<char>
    decreases n,
{
    if n < 10 {
        seq![digit(n)]
    } else {
        decimal(n / 10).push(digit(n % 10))
    }
}

/// Appends the decimal representation of `n`.
pub fn push_decimal(out: &mut Vec<char>, n: u64)
    ensures
        final(out)@ == old(out)@ + decimal(n as nat),
    decreases n,
{
    if n >= 10 {
        push_decimal(out, n / 10);
    }
    let d: u8 = (n % 10) as u8;
    out.push((48u8 + d) as char);
    proof {
        if n >= 10 {
            assert(decimal(n as nat) == decimal((n / 10) as nat).push(digit((n % 10) as nat)));
        }
    }
    assert(out@ =~= old(out)@ + decimal(n as nat));
}

/// The elements of `parts` with `sep` between each two neighbours.
pub open spec fn join(parts: Seq<Seq<char>>, sep: Seq<char>) -> Seq<char>
    decreases parts.len(),
{
    if parts.len() == 0 {
        Seq::empty()
    } else if parts.len() == 1 {
        parts[0]
    } else {
        join(parts.drop_last(), sep) + sep + parts.last()
    }
}

} // verus!

verus! {

/// The words of a string: its maximal runs of non-space characters, in
/// order, as `str::split_whitespace` yields them.
pub open spec fn words(s: Seq<char>) -> Seq<Seq<char>>
    decreases s.len(),
{
    if s.len() == 0 {
        Seq::empty()
    } else {
        let w = words(s.drop_last());
        let c = s.last();
        if is_space(c) {
            w
        } else if s.len() >= 2 && !is_space(s[s.len() - 2]) {
            w.update(w.len() - 1, w.last().push(c))
        } else {
            w.push(seq![c])
        }
    }
}

proof fn lemma_words_nonempty_after_word(s: Seq<char>)
    requires
        s.len() > 0,
        !is_space(s.last()),
    ensures
        words(s).len() > 0,
    decreases s.len(),
{
    if s.len() >= 2 && !is_space(s[s.len() - 2]) {
        let t = s.drop_last();
        assert(t.last() == s[s.len() - 2]);
        lemma_words_nonempty_after_word(t);
    }
}

proof fn lemma_join_extend_last(parts: Seq<Seq<char>>, sep: Seq<char>, c: char)
    requires
        parts.len() > 0,
    ensures
        join(parts.update(parts.len() - 1, parts.last().push(c)), sep) == join(parts, sep).push(c),
{
    let u = parts.update(parts.len() - 1, parts.last().push(c));
    if parts.len() == 1 {
        assert(u[0] == parts[0].push(c));
    } else {
        assert(u.drop_last() =~= parts.drop_last());
        assert(u.last() == parts.last().push(c));
        assert(join(u, sep) == join(u.drop_last(), sep) + sep + u.last());
        assert(join(parts, sep) == join(parts.drop_last(), sep) + sep + parts.last());
        assert(join(u, sep) =~= join(parts, sep).push(c));
    }
}

proof fn lemma_join_push(parts: Seq<Seq<char>>, sep: Seq<char>, p: Seq<char>)
    ensures
        join(parts.push(p), sep) == if parts.len() == 0 {
            p
        } else {
            join(parts, sep) + sep + p
        },
{
    let u = parts.push(p);
    if parts.len() > 0 {
        assert(u.drop_last() =~= parts);
    }
}

proof fn lemma_join_empty_iff(parts: Seq<Seq<char>>, sep: Seq<char>)
    requires
        forall|i: int| 0 <= i < parts.len() ==> #[trigger] parts[i].len() > 0,
    ensures
        (join(parts, sep).len() == 0) == (parts.len() == 0),
    decreases parts.len(),
{
    if parts.len() > 1 {
        assert(parts.last() == parts[parts.len() - 1]);
    } else if parts.len() == 1 {
        assert(parts[0].len() > 0);
    }
}

proof fn lemma_words_nonempty(s: Seq<char>)
    ensures
        forall|i: int| 0 <= i < words(s).len() ==> #[trigger] words(s)[i].len() > 0,
    decreases s.len(),
{
    if s.len() > 0 {
        let t = s.drop_last();
        let w = words(t);
        lemma_words_nonempty(t);
        let c = s.last();
        if !is_space(c) && s.len() >= 2 && !is_space(s[s.len() - 2]) {
            assert(t.last() == s[s.len() - 2]);
            lemma_words_nonempty_after_word(t);
            let u = w.update(w.len() - 1, w.last().push(c));
            assert forall|i: int| 0 <= i < u.len() implies #[trigger] u[i].len() > 0 by {
                if i < w.len() - 1 {
                    assert(u[i] == w[i]);
                }
            }
        } else if !is_space(c) {
            let u = w.push(seq![c]);
            assert forall|i: int| 0 <= i < u.len() implies #[trigger] u[i].len() > 0 by {
                if i < w.len() {
                    assert(u[i] == w[i]);
                }
            }
        }
    }
}

/// A word: at least one character, none of them white space.
pub open spec fn is_word(w: Seq<char>) -> bool {
    w.len() > 0 && forall|i: int| 0 <= i < w.len() ==> !is_space(#[trigger] w[i])
}

proof fn lemma_words_are_words(s: Seq<char>)
    ensures
        forall|i: int| 0 <= i < words(s).len() ==> is_word(#[trigger] words(s)[i]),
    decreases s.len(),
{
    if s.len() > 0 {
        let t = s.drop_last();
        let w = words(t);
        lemma_words_are_words(t);
        let c = s.last();
        if !is_space(c) && s.len() >= 2 && !is_space(s[s.len() - 2]) {
            assert(t.last() == s[s.len() - 2]);
            lemma_words_nonempty_after_word(t);
            let u = w.update(w.len() - 1, w.last().push(c));
            assert forall|i: int| 0 <= i < u.len() implies is_word(#[trigger] u[i]) by {
                if i < w.len() - 1 {
                    assert(u[i] == w[i]);
                } else {
                    assert(is_word(w[w.len() - 1]));
                    let x = w.last().push(c);
                    assert forall|k: int| 0 <= k < x.len() implies !is_space(#[trigger] x[k]) by {
                        if k < x.len() - 1 {
                            assert(x[k] == w[w.len() - 1][k]);
                        }
                    }
                }
            }
        } else if !is_space(c) {
            let u = w.push(seq![c]);
            assert forall|i: int| 0 <= i < u.len() implies is_word(#[trigger] u[i]) by {
                if i < w.len() {
                    assert(u[i] == w[i]);
                }
            }
        }
    }
}

/// Appending a word after a space adds it to the words.
proof fn lemma_words_after_space(s: Seq<char>, w: Seq<char>)
    requires
        is_word(w),
    ensures
        words(s + seq![' '] + w) == words(s).push(w),
    decreases w.len(),
{
    let sp = s + seq![' '];
    assert(sp.drop_last() =~= s);
    assert(is_space(' '));
    assert(words(sp) == words(s));
    let whole = sp + w;
    if w.len() == 1 {
        assert(whole.drop_last() =~= sp);
        assert(whole.last() == w[0]);
        assert(whole[whole.len() - 2] == ' ');
        assert(seq![w[0]] =~= w);
    } else {
        let init = w.drop_last();
        assert(is_word(init)) by {
            assert forall|k: int| 0 <= k < init.len() implies !is_space(#[trigger] init[k]) by {
                assert(init[k] == w[k]);
            }
        }
        lemma_words_after_space(s, init);
        assert(whole.drop_last() =~= sp + init);
        assert(whole.last() == w[w.len() - 1]);
        assert(whole[whole.len() - 2] == w[w.len() - 2]);
        let p = words(sp + init);
        assert(p == words(s).push(init));
        assert(p.update(p.len() - 1, p.last().push(whole.last())) =~= words(s).push(w)) by {
            assert(init.push(w[w.len() - 1]) =~= w);
        }
    }
}

/// A single word is its own only word.
proof fn lemma_words_of_word(w: Seq<char>)
    requires
        is_word(w),
    ensures
        words(w) == seq![w],
    decreases w.len(),
{
    assert(!is_space(w[w.len() - 1]));
    if w.len() == 1 {
        assert(w.drop_last() =~= Seq::<char>::empty());
        assert(words(w.drop_last()) =~= Seq::<Seq<char>>::empty());
        assert(seq![w[0]] =~= w);
    } else {
        assert(!is_space(w[w.len() - 2]));
        let init = w.drop_last();
        assert(is_word(init)) by {
            assert forall|k: int| 0 <= k < init.len() implies !is_space(#[trigger] init[k]) by {
                assert(init[k] == w[k]);
            }
        }
        lemma_words_of_word(init);
        assert(w[w.len() - 2] == init.last());
        assert(seq![init].update(0, init.push(w.last())) =~= seq![w]) by {
            assert(init.push(w.last()) =~= w);
        }
    }
}

/// Words joined by single spaces split back into the same words.
proof fn lemma_words_of_joined(ws: Seq<Seq<char>>)
    requires
        forall|i: int| 0 <= i < ws.len() ==> is_word(#[trigger] ws[i]),
    ensures
        words(join(ws, seq![' '])) == ws,
    decreases ws.len(),
{
    if ws.len() == 0 {
        assert(words(Seq::<char>::empty()) =~= ws);
    } else if ws.len() == 1 {
        assert(is_word(ws[0]));
        lemma_words_of_word(ws[0]);
        assert(seq![ws[0]] =~= ws);
    } else {
        let init = ws.drop_last();
        assert forall|i: int| 0 <= i < init.len() implies is_word(#[trigger] init[i]) by {
            assert(init[i] == ws[i]);
        }
        lemma_words_of_joined(init);
        assert(is_word(ws[ws.len() - 1]));
        lemma_words_after_space(join(init, seq![' ']), ws.last());
        assert(init.push(ws.last()) =~= ws);
    }
}

/// Collapsing white space a second time changes nothing.
pub proof fn lemma_collapsed_stable(s: Seq<char>)
    ensures
        collapsed(collapsed(s)) == collapsed(s),
{
    lemma_words_are_words(s);
    lemma_words_of_joined(words(s));
}

/// The words of a string joined by single spaces: white space collapsed and
/// removed from both ends.
pub open spec fn collapsed(s: Seq<char>) -> Seq<char> {
    join(words(s), seq![' '])
}

/// Collapses the white space of a string.
pub fn collapse_whitespace(s: &str) -> (r: Vec<char>)
    ensures
        r@ == collapsed(s@),
        (r@.len() == 0) == (words(s@).len() == 0),
{
    let chars = to_chars(s);
    let n = chars.len();
    let mut out: Vec<char> = Vec::new();
    let mut in_word = false;
    let mut i: usize = 0;
    while i < n
        invariant
            i <= n,
            n == chars@.len(),
            chars@ == s@,
            out@ == join(words(chars@.take(i as int)), seq![' ']),
            in_word == (i > 0 && !is_space(chars@[i - 1])),
        decreases n - i,
    {
        let c = chars[i];
        let ghost prefix = chars@.take(i as int);
        let ghost next = chars@.take(i + 1);
        assert(next.drop_last() =~= prefix);
        assert(next.last() == c);
        if is_space_char(c) {
            in_word = false;
        } else if in_word {
            proof {
                assert(next[next.len() - 2] == chars@[i - 1]);
                assert(prefix.last() == chars@[i - 1]);
                lemma_words_nonempty_after_word(prefix);
                lemma_join_extend_last(words(prefix), seq![' '], c);
            }
            out.push(c);
        } else {
            proof {
                if i > 0 {
                    assert(next[next.len() - 2] == chars@[i - 1]);
                }
                lemma_join_push(words(prefix), seq![' '], seq![c]);
                lemma_words_nonempty(prefix);
                lemma_join_empty_iff(words(prefix), seq![' ']);
            }
            if out.len() > 0 {
                out.push(' ');
            }
            out.push(c);
            proof {
                if words(prefix).len() == 0 {
                    assert(out@ =~= seq![c]);
                } else {
                    assert(out@ =~= join(words(prefix), seq![' ']) + seq![' '] + seq![c]);
                }
            }
            in_word = true;
        }
        i = i + 1;
    }
    assert(chars@.take(n as int) =~= chars@);
    proof {
        lemma_words_nonempty(s@);
        lemma_join_empty_iff(words(s@), seq![' ']);
    }
    out
}

} // verus!

verus! {

proof fn lemma_trim_start_shape(s: Seq<char>)
    ensures
        trim_start(s).len() == 0 || !is_space(trim_start(s)[0]),
    decreases s.len(),
{
    if s.len() > 0 && is_space(s[0]) {
        lemma_trim_start_shape(s.drop_first());
    }
}

proof fn lemma_trim_end_shape(s: Seq<char>)
    ensures
        trim_end(s).len() <= s.len(),
        trim_end(s) == s.take(trim_end(s).len() as int),
        trim_end(s).len() == 0 || !is_space(trim_end(s).last()),
    decreases s.len(),
{
    if s.len() > 0 && is_space(s.last()) {
        lemma_trim_end_shape(s.drop_last());
        let r = trim_end(s.drop_last());
        assert(s.drop_last().take(r.len() as int) =~= s.take(r.len() as int));
    } else {
        assert(s.take(s.len() as int) =~= s);
    }
}

/// What `trim` leaves neither starts nor ends with white space.
pub proof fn lemma_trim_shape(s: Seq<char>)
    ensures
        trim(s).len() == 0 || (!is_space(trim(s)[0]) && !is_space(trim(s).last())),
{
    lemma_trim_start_shape(s);
    lemma_trim_end_shape(trim_start(s));
    let t = trim(s);
    if t.len() > 0 {
        assert(t[0] == trim_start(s).take(t.len() as int)[0]);
    }
}

/// A string that neither starts nor ends with white space is its own trim.
pub proof fn lemma_trim_noop(s: Seq<char>)
    requires
        s.len() == 0 || (!is_space(s[0]) && !is_space(s.last())),
    ensures
        trim(s) == s,
{
}

} // verus!
