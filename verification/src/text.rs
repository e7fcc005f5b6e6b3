//! Strings as sequences of characters, and the bytes that encode them.

use vstd::prelude::*;
use vstd::string::*;
use vstd::utf8::*;

verus! {

/// `String::push` appends one character.
pub assume_specification[ String::push ](s: &mut String, c: char)
    ensures
        final(s)@ == old(s)@.push(c),
;

/// `String::push_str` appends a string slice.
pub assume_specification[ String::push_str ](s: &mut String, t: &str)
    ensures
        final(s)@ == old(s)@ + t@,
;

/// `std::str::from_utf8` takes bytes for the text they encode, and refuses exactly the bytes that
/// are no UTF-8.
#[verifier::external_body]
pub(crate) fn utf8_str(bytes: &[u8]) -> (r: Option<&str>)
    ensures
        r is Some <==> valid_utf8(bytes@),
        r matches Some(s) ==> encode_utf8(s@) == bytes@,
{
    std::str::from_utf8(bytes).ok()
}

/// Equal UTF-8 encodings come from equal texts.
pub proof fn lemma_encoding_is_injective(a: Seq<char>, b: Seq<char>)
    requires
        encode_utf8(a) == encode_utf8(b),
    ensures
        a == b,
{
    encode_utf8_decode_utf8(a);
    encode_utf8_decode_utf8(b);
}

/// The characters of `s`, one per element.
pub fn to_chars(s: &str) -> (r: Vec<char>)
    ensures
        r@ == s@,
{
    let mut out: Vec<char> = Vec::new();
    for c in it: s.chars()
        invariant
            it.seq() == s@,
            out@ == s@.take(it.index()),
    {
        out.push(c);
        assert(s@.take(it.index() + 1) =~= s@.take(it.index()).push(c));
    }
    assert(s@.take(s@.len() as int) =~= s@);
    out
}

/// The decimal digits of `n`.
pub open spec fn decimal(n: nat) -> Seq<char>
    decreases n,
{
    if n < 10 {
        seq![digit(n)]
    } else {
        decimal(n / 10).push(digit(n % 10))
    }
}

/// The character of a decimal digit.
pub open spec fn digit(d: nat) -> char {
    (0x30 + d) as char
}

/// `n` in decimal.
pub fn decimal_u128(n: u128) -> (r: String)
    ensures
        r@ == decimal(n as nat),
    decreases n,
{
    let last: u8 = (n % 10) as u8;
    let c: char = (0x30 + last) as char;
    let mut out = if n < 10 {
        String::new()
    } else {
        decimal_u128(n / 10)
    };
    out.push(c);
    out
}

/// `n` in decimal.
pub fn decimal_u64(n: u64) -> (r: String)
    ensures
        r@ == decimal(n as nat),
{
    decimal_u128(n as u128)
}

/// `n` in decimal, with a minus sign where it is negative.
pub open spec fn signed_decimal(n: int) -> Seq<char> {
    if n < 0 {
        seq!['-'] + decimal((-n) as nat)
    } else {
        decimal(n as nat)
    }
}

/// `n` in decimal.
pub fn decimal_i64(n: i64) -> (r: String)
    ensures
        r@ == signed_decimal(n as int),
{
    if n < 0 {
        let mut out = String::new();
        out.push('-');
        out.push_str(decimal_u128((-(n as i128)) as u128).as_str());
        assert(out@ =~= signed_decimal(n as int));
        out
    } else {
        decimal_u128(n as u128)
    }
}

/// The text of an optional string.
pub open spec fn text_of(s: Option<String>) -> Option<Seq<char>> {
    match s {
        Some(t) => Some(t@),
        None => None,
    }
}

/// The text of an optional string slice.
pub open spec fn text_of_str(s: Option<&str>) -> Option<Seq<char>> {
    match s {
        Some(t) => Some(t@),
        None => None,
    }
}

/// An owned copy of an optional string slice.
pub fn owned(s: Option<&str>) -> (r: Option<String>)
    ensures
        text_of(r) == text_of_str(s),
{
    match s {
        Some(t) => Some(t.to_owned()),
        None => None,
    }
}

/// Whether `s` begins with `prefix`.
pub fn starts_with(s: &str, prefix: &str) -> (r: bool)
    ensures
        r == prefix@.is_prefix_of(s@),
{
    let cs = to_chars(s);
    let ps = to_chars(prefix);
    if ps.len() > cs.len() {
        return false;
    }
    let mut i: usize = 0;
    while i < ps.len()
        invariant
            cs@ == s@,
            ps@ == prefix@,
            i <= ps@.len() <= cs@.len(),
            forall|j: int| 0 <= j < i ==> ps@[j] == cs@[j],
        decreases ps@.len() - i,
    {
        if ps[i] != cs[i] {
            assert(cs@.subrange(0, ps@.len() as int)[i as int] == cs@[i as int]);
            return false;
        }
        i += 1;
    }
    assert(ps@ =~= cs@.subrange(0, ps@.len() as int));
    true
}

/// Whether two byte strings are equal.
pub fn same_bytes(a: &[u8], b: &[u8]) -> (r: bool)
    ensures
        r == (a@ == b@),
{
    if a.len() != b.len() {
        return false;
    }
    let mut i: usize = 0;
    while i < a.len()
        invariant
            i <= a@.len(),
            a@.len() == b@.len(),
            forall|j: int| 0 <= j < i ==> a@[j] == b@[j],
        decreases a@.len() - i,
    {
        if a[i] != b[i] {
            return false;
        }
        i += 1;
    }
    assert(a@ =~= b@);
    true
}

/// Whether two strings are equal.
pub fn same(a: &str, b: &str) -> (r: bool)
    ensures
        r == (a@ == b@),
{
    let r = same_bytes(a.as_bytes(), b.as_bytes());
    proof {
        if r {
            lemma_encoding_is_injective(a@, b@);
        }
    }
    r
}

/// The pieces of `s` between the occurrences of `sep`.
pub open spec fn split_on(s: Seq<char>, sep: char) -> Seq<Seq<char>>
    decreases s.len(),
{
    if s.len() == 0 {
        seq![Seq::empty()]
    } else {
        let before = split_on(s.drop_last(), sep);
        if s.last() == sep {
            before.push(Seq::empty())
        } else {
            before.drop_last().push(before.last().push(s.last()))
        }
    }
}

/// The pieces with `sep` between them.
pub open spec fn join_with(pieces: Seq<Seq<char>>, sep: Seq<char>) -> Seq<char>
    decreases pieces.len(),
{
    if pieces.len() == 0 {
        Seq::empty()
    } else if pieces.len() == 1 {
        pieces[0]
    } else {
        join_with(pieces.drop_last(), sep) + sep + pieces.last()
    }
}

/// The texts of a list of string slices.
pub open spec fn slice_texts(v: Seq<&str>) -> Seq<Seq<char>> {
    v.map_values(|s: &str| s@)
}

/// The texts of a list of strings.
pub open spec fn texts(v: Seq<String>) -> Seq<Seq<char>> {
    v.map_values(|s: String| s@)
}

/// There is always a piece.
pub proof fn lemma_split_nonempty(s: Seq<char>, sep: char)
    ensures
        split_on(s, sep).len() > 0,
    decreases s.len(),
{
    if s.len() > 0 {
        lemma_split_nonempty(s.drop_last(), sep);
    }
}

/// No piece holds the separator.
pub proof fn lemma_pieces_hold_no_separator(s: Seq<char>, sep: char)
    ensures
        forall|i: int|
            0 <= i < split_on(s, sep).len() ==> !(#[trigger] split_on(s, sep)[i]).contains(sep),
    decreases s.len(),
{
    if s.len() > 0 {
        let before = split_on(s.drop_last(), sep);
        lemma_pieces_hold_no_separator(s.drop_last(), sep);
        lemma_split_nonempty(s.drop_last(), sep);
        let all = split_on(s, sep);
        assert forall|i: int| 0 <= i < all.len() implies !(#[trigger] all[i]).contains(sep) by {
            if s.last() == sep {
                if i < before.len() {
                    assert(all[i] == before[i]);
                }
            } else if i < before.len() - 1 {
                assert(all[i] == before[i]);
            } else {
                let piece = before[before.len() - 1];
                assert(all[i] == piece.push(s.last()));
                if all[i].contains(sep) {
                    let k = choose|k: int| 0 <= k < all[i].len() && all[i][k] == sep;
                    assert(piece[k] == sep);
                    assert(piece.contains(sep));
                }
            }
        }
    }
}

/// Splitting a text and joining the pieces gives the text back.
pub proof fn lemma_split_join(s: Seq<char>, sep: char)
    ensures
        join_with(split_on(s, sep), seq![sep]) == s,
    decreases s.len(),
{
    if s.len() == 0 {
        assert(join_with(split_on(s, sep), seq![sep]) =~= s);
    } else {
        let before = split_on(s.drop_last(), sep);
        lemma_split_join(s.drop_last(), sep);
        lemma_split_nonempty(s.drop_last(), sep);
        let all = split_on(s, sep);
        if s.last() == sep {
            assert(all.drop_last() =~= before);
            assert(join_with(all, seq![sep]) =~= s);
        } else {
            assert(all.drop_last() =~= before.drop_last());
            assert(all.last() == before.last().push(s.last()));
            assert(s =~= s.drop_last().push(s.last()));
            if before.len() == 1 {
                assert(join_with(all, seq![sep]) == all[0]);
            } else {
                let head = join_with(before.drop_last(), seq![sep]) + seq![sep];
                assert(join_with(before, seq![sep]) == head + before.last());
                assert(join_with(all, seq![sep]) == head + all.last());
                assert(head + before.last().push(s.last()) =~= (head + before.last()).push(
                    s.last(),
                ));
            }
        }
    }
}

/// The pieces of `s` between the occurrences of `sep`.
pub fn split<'a>(s: &'a str, sep: char) -> (r: Vec<&'a str>)
    ensures
        slice_texts(r@) == split_on(s@, sep),
{
    let cs = to_chars(s);
    let mut out: Vec<&'a str> = Vec::new();
    let mut from: usize = 0;
    let mut i: usize = 0;
    assert(s@.take(0) =~= Seq::empty());
    assert(slice_texts(out@).push(s@.subrange(0, 0)) =~= split_on(s@.take(0), sep));
    while i < cs.len()
        invariant
            cs@ == s@,
            from <= i <= cs@.len(),
            slice_texts(out@).push(s@.subrange(from as int, i as int)) == split_on(
                s@.take(i as int),
                sep,
            ),
        decreases cs@.len() - i,
    {
        let ghost before = split_on(s@.take(i as int), sep);
        let ghost now = s@.take(i as int + 1);
        assert(now.drop_last() =~= s@.take(i as int));
        assert(now.last() == cs@[i as int]);
        if cs[i] == sep {
            let ghost was = slice_texts(out@);
            out.push(s.substring_char(from, i));
            assert(slice_texts(out@) =~= was.push(s@.subrange(from as int, i as int)));
            from = i + 1;
            assert(s@.subrange(from as int, i as int + 1) =~= Seq::empty());
        } else {
            assert(before.drop_last() =~= slice_texts(out@));
            assert(s@.subrange(from as int, i as int + 1) =~= s@.subrange(
                from as int,
                i as int,
            ).push(cs@[i as int]));
        }
        i += 1;
    }
    let ghost was = slice_texts(out@);
    out.push(s.substring_char(from, i));
    assert(slice_texts(out@) =~= was.push(s@.subrange(from as int, i as int)));
    assert(s@.take(i as int) =~= s@);
    out
}

/// The pieces with `sep` between them.
pub fn join(pieces: &Vec<&str>, sep: &str) -> (r: String)
    ensures
        r@ == join_with(slice_texts(pieces@), sep@),
{
    let mut out = String::new();
    let ghost all = slice_texts(pieces@);
    let mut i: usize = 0;
    while i < pieces.len()
        invariant
            i <= pieces@.len(),
            all == slice_texts(pieces@),
            out@ == join_with(all.take(i as int), sep@),
        decreases pieces@.len() - i,
    {
        let ghost now = all.take(i as int + 1);
        assert(now.drop_last() =~= all.take(i as int));
        if i > 0 {
            out.push_str(sep);
        }
        out.push_str(pieces[i]);
        assert(out@ =~= join_with(now, sep@));
        i += 1;
    }
    assert(all.take(i as int) =~= all);
    out
}

/// The pieces with `sep` between them.
pub fn join_strings(pieces: &Vec<String>, sep: &str) -> (r: String)
    ensures
        r@ == join_with(texts(pieces@), sep@),
{
    let mut out = String::new();
    let ghost all = texts(pieces@);
    let mut i: usize = 0;
    while i < pieces.len()
        invariant
            i <= pieces@.len(),
            all == texts(pieces@),
            out@ == join_with(all.take(i as int), sep@),
        decreases pieces@.len() - i,
    {
        let ghost now = all.take(i as int + 1);
        assert(now.drop_last() =~= all.take(i as int));
        if i > 0 {
            out.push_str(sep);
        }
        out.push_str(pieces[i].as_str());
        assert(out@ =~= join_with(now, sep@));
        i += 1;
    }
    assert(all.take(i as int) =~= all);
    out
}

/// Whether `c` occurs in `s`.
pub fn has_char(s: &str, c: char) -> (r: bool)
    ensures
        r == s@.contains(c),
{
    let cs = to_chars(s);
    let mut i: usize = 0;
    while i < cs.len()
        invariant
            cs@ == s@,
            i <= cs@.len(),
            forall|j: int| 0 <= j < i ==> cs@[j] != c,
        decreases cs@.len() - i,
    {
        if cs[i] == c {
            assert(s@[i as int] == c);
            return true;
        }
        i += 1;
    }
    false
}

/// Where `c` last occurs in `s`.
pub open spec fn last_index(s: Seq<char>, c: char) -> Option<nat>
    decreases s.len(),
{
    if s.len() == 0 {
        None
    } else if s.last() == c {
        Some((s.len() - 1) as nat)
    } else {
        last_index(s.drop_last(), c)
    }
}

/// Where `c` last occurs among the characters of `s`.
pub fn rfind(s: &str, c: char) -> (r: Option<usize>)
    ensures
        match r {
            Some(i) => last_index(s@, c) == Some(i as nat) && i < s@.len(),
            None => last_index(s@, c) is None,
        },
{
    let cs = to_chars(s);
    let mut i: usize = cs.len();
    assert(s@.take(i as int) =~= s@);
    while i > 0
        invariant
            cs@ == s@,
            i <= cs@.len(),
            last_index(s@, c) == last_index(s@.take(i as int), c),
        decreases i,
    {
        i -= 1;
        assert(s@.take(i as int + 1).drop_last() =~= s@.take(i as int));
        if cs[i] == c {
            return Some(i);
        }
    }
    None
}

/// `s` from the character at `from` up to that at `to`.
pub fn slice<'a>(s: &'a str, from: usize, to: usize) -> (r: &'a str)
    requires
        from <= to <= s@.len(),
    ensures
        r@ == s@.subrange(from as int, to as int),
{
    s.substring_char(from, to)
}

/// How many characters `s` has.
pub fn char_count(s: &str) -> (r: usize)
    ensures
        r == s@.len(),
{
    s.unicode_len()
}

/// What `{:?}` writes for a string slice.
pub uninterp spec fn debug_text(s: Seq<char>) -> Seq<char>;

/// `str`'s `Debug` form: the text is a function of the string, named [`debug_text`].
#[verifier::external_body]
pub(crate) fn quoted(s: &str) -> (r: String)
    ensures
        r@ == debug_text(s@),
{
    format!("{:?}", s)
}

/// What `str::to_lowercase` makes of a text.
pub uninterp spec fn lowercase(s: Seq<char>) -> Seq<char>;

/// The lower-case form of an ASCII character; any other character is its own.
pub open spec fn ascii_lower(c: char) -> char {
    if 'A' <= c <= 'Z' {
        (c as nat + 32) as char
    } else {
        c
    }
}

/// Whether a text is ASCII.
pub open spec fn is_ascii_text(s: Seq<char>) -> bool {
    forall|i: int| 0 <= i < s.len() ==> (#[trigger] s[i] as nat) < 128
}

/// `str::to_lowercase`: the result is a function of the text, named [`lowercase`]. Of an ASCII
/// text the letters are lowered and the rest stays.
#[verifier::external_body]
pub(crate) fn to_lower(s: &str) -> (r: String)
    ensures
        r@ == lowercase(s@),
        is_ascii_text(s@) ==> r@ == s@.map_values(|c: char| ascii_lower(c)),
{
    s.to_lowercase()
}

/// What `str::to_uppercase` makes of a text.
pub uninterp spec fn uppercase(s: Seq<char>) -> Seq<char>;

/// The upper-case form of an ASCII character; any other character is its own.
pub open spec fn ascii_upper(c: char) -> char {
    if 'a' <= c <= 'z' {
        (c as nat - 32) as char
    } else {
        c
    }
}

/// `str::to_uppercase`: the result is a function of the text, named [`uppercase`]. Of an ASCII
/// text the letters are raised and the rest stays.
#[verifier::external_body]
pub(crate) fn to_upper(s: &str) -> (r: String)
    ensures
        r@ == uppercase(s@),
        is_ascii_text(s@) ==> r@ == s@.map_values(|c: char| ascii_upper(c)),
{
    s.to_uppercase()
}

/// Whether `c` is white space.
pub open spec fn is_space(c: char) -> bool {
    '\u{9}' <= c <= '\u{d}' || c == ' ' || c == '\u{85}' || c == '\u{a0}' || c == '\u{1680}'
        || '\u{2000}' <= c <= '\u{200a}' || c == '\u{2028}' || c == '\u{2029}' || c == '\u{202f}'
        || c == '\u{205f}' || c == '\u{3000}'
}

/// Whether `c` is white space.
pub fn white_space(c: char) -> (r: bool)
    ensures
        r == is_space(c),
{
    ('\u{9}' <= c && c <= '\u{d}') || c == ' ' || c == '\u{85}' || c == '\u{a0}' || c == '\u{1680}'
        || ('\u{2000}' <= c && c <= '\u{200a}') || c == '\u{2028}' || c == '\u{2029}' || c
        == '\u{202f}' || c == '\u{205f}' || c == '\u{3000}'
}

/// `s` without the white space that it starts with.
pub open spec fn trimmed_start(s: Seq<char>) -> Seq<char>
    decreases s.len(),
{
    if s.len() > 0 && is_space(s[0]) {
        trimmed_start(s.skip(1))
    } else {
        s
    }
}

/// `s` without the white space that it ends in.
pub open spec fn trimmed_space_end(s: Seq<char>) -> Seq<char>
    decreases s.len(),
{
    if s.len() > 0 && is_space(s.last()) {
        trimmed_space_end(s.drop_last())
    } else {
        s
    }
}

/// `s` without the white space that it starts with.
pub fn trim_start<'a>(s: &'a str) -> (r: &'a str)
    ensures
        r@ == trimmed_start(s@),
{
    let cs = to_chars(s);
    let mut i: usize = 0;
    assert(s@.skip(0) =~= s@);
    while i < cs.len() && white_space(cs[i])
        invariant
            i <= cs@.len(),
            cs@ == s@,
            trimmed_start(s@) == trimmed_start(s@.skip(i as int)),
        decreases cs@.len() - i,
    {
        assert(s@.skip(i as int).skip(1) =~= s@.skip(i as int + 1));
        i += 1;
    }
    let r = slice(s, i, cs.len());
    assert(r@ =~= s@.skip(i as int));
    r
}

/// `s` without the white space that it starts with or ends in.
pub fn trim<'a>(s: &'a str) -> (r: &'a str)
    ensures
        r@ == trimmed_space_end(trimmed_start(s@)),
{
    let t = trim_start(s);
    let cs = to_chars(t);
    let mut n: usize = cs.len();
    assert(t@.take(n as int) =~= t@);
    while n > 0 && white_space(cs[n - 1])
        invariant
            n <= cs@.len(),
            cs@ == t@,
            trimmed_space_end(t@) == trimmed_space_end(t@.take(n as int)),
        decreases n,
    {
        assert(t@.take(n as int).drop_last() =~= t@.take(n as int - 1));
        n -= 1;
    }
    let r = slice(t, 0, n);
    assert(r@ =~= t@.take(n as int));
    r
}

/// Where `c` first occurs in `s`; its end if it does not.
pub open spec fn first_index(s: Seq<char>, c: char) -> nat
    decreases s.len(),
{
    if s.len() == 0 || s[0] == c {
        0
    } else {
        1 + first_index(s.skip(1), c)
    }
}

/// Where `c` first occurs in `s`; its end if it does not.
pub fn find_char(s: &str, c: char) -> (r: usize)
    ensures
        r == first_index(s@, c),
        r <= s@.len(),
        r < s@.len() ==> s@[r as int] == c,
{
    let cs = to_chars(s);
    let mut i: usize = 0;
    assert(s@.skip(0) =~= s@);
    while i < cs.len() && cs[i] != c
        invariant
            i <= cs@.len(),
            cs@ == s@,
            first_index(s@, c) == i + first_index(s@.skip(i as int), c),
        decreases cs@.len() - i,
    {
        assert(s@.skip(i as int).skip(1) =~= s@.skip(i as int + 1));
        i += 1;
    }
    i
}

/// `s` with each `from` replaced by `to`.
pub fn replace_char(s: &str, from: char, to: char) -> (r: String)
    ensures
        r@ == s@.map_values(
            |c: char|
                if c == from {
                    to
                } else {
                    c
                },
        ),
{
    let cs = to_chars(s);
    let mut out = String::new();
    let mut i: usize = 0;
    let ghost all = s@.map_values(
        |c: char|
            if c == from {
                to
            } else {
                c
            },
    );
    assert(out@ =~= all.take(0));
    while i < cs.len()
        invariant
            i <= cs@.len(),
            cs@ == s@,
            all == s@.map_values(
                |c: char|
                    if c == from {
                        to
                    } else {
                        c
                    },
            ),
            out@ == all.take(i as int),
        decreases cs@.len() - i,
    {
        out.push(if cs[i] == from {
            to
        } else {
            cs[i]
        });
        assert(out@ =~= all.take(i as int + 1));
        i += 1;
    }
    assert(all.take(i as int) =~= all);
    out
}

/// `s` without the `c` at its end, however often it stands there.
pub open spec fn trimmed_end(s: Seq<char>, c: char) -> Seq<char>
    decreases s.len(),
{
    if s.len() > 0 && s.last() == c {
        trimmed_end(s.drop_last(), c)
    } else {
        s
    }
}

/// `s` without the `c` at its end, however often it stands there.
pub fn trim_end_char<'a>(s: &'a str, c: char) -> (r: &'a str)
    ensures
        r@ == trimmed_end(s@, c),
{
    let cs = to_chars(s);
    let mut n: usize = cs.len();
    assert(s@.take(n as int) =~= s@);
    while n > 0 && cs[n - 1] == c
        invariant
            n <= cs@.len(),
            cs@ == s@,
            trimmed_end(s@, c) == trimmed_end(s@.take(n as int), c),
        decreases n,
    {
        assert(s@.take(n as int).drop_last() =~= s@.take(n as int - 1));
        n -= 1;
    }
    let r = slice(s, 0, n);
    assert(r@ =~= s@.take(n as int));
    r
}

/// Whether `part` occurs in `s`.
pub open spec fn holds(s: Seq<char>, part: Seq<char>) -> bool {
    exists|i: int| 0 <= i <= s.len() - part.len() && #[trigger] s.subrange(i, i + part.len()) == part
}

/// Whether `part` occurs in `s`.
pub fn contains(s: &str, part: &str) -> (r: bool)
    ensures
        r == holds(s@, part@),
{
    let cs = to_chars(s);
    let ps = to_chars(part);
    if ps.len() > cs.len() {
        return false;
    }
    let last: usize = cs.len() - ps.len();
    let mut i: usize = 0;
    loop
        invariant
            i <= last,
            last == cs@.len() - ps@.len(),
            cs@ == s@,
            ps@ == part@,
            forall|k: int| 0 <= k < i ==> s@.subrange(k, #[trigger] (k + part@.len())) != part@,
        decreases last - i,
    {
        let mut j: usize = 0;
        while j < ps.len() && cs[i + j] == ps[j]
            invariant
                j <= ps@.len(),
                i + ps.len() <= cs.len(),
                forall|k: int| 0 <= k < j ==> cs@[i + k] == ps@[k],
            decreases ps@.len() - j,
        {
            j += 1;
        }
        if j == ps.len() {
            assert(s@.subrange(i as int, i + part@.len()) =~= part@);
            return true;
        }
        proof {
            assert(s@.subrange(i as int, i + part@.len())[j as int] == cs@[i + j]);
        }
        if i == last {
            assert forall|k: int| 0 <= k <= s@.len() - part@.len() implies #[trigger] s@.subrange(
                k,
                k + part@.len(),
            ) != part@ by {}
            return false;
        }
        i += 1;
    }
}

/// `s` without the occurrences of `part`, taken from the left.
pub open spec fn removed(s: Seq<char>, part: Seq<char>) -> Seq<char>
    decreases s.len(),
{
    if s.len() == 0 {
        Seq::empty()
    } else if 0 < part.len() <= s.len() && s.take(part.len() as int) == part {
        removed(s.skip(part.len() as int), part)
    } else {
        seq![s[0]] + removed(s.skip(1), part)
    }
}

/// `s` without the occurrences of `part`, taken from the left.
pub fn without(s: &str, part: &str) -> (r: String)
    requires
        part@.len() > 0,
    ensures
        r@ == removed(s@, part@),
{
    let n: usize = char_count(s);
    let m: usize = char_count(part);
    let mut out = String::new();
    let mut i: usize = 0;
    let ghost whole = removed(s@, part@);
    assert(s@.skip(0) =~= s@);
    assert(whole =~= out@ + whole);
    while i < n
        invariant
            n == s@.len(),
            m == part@.len(),
            m > 0,
            i <= n,
            whole == out@ + removed(s@.skip(i as int), part@),
        decreases n - i,
    {
        let ghost rest = s@.skip(i as int);
        let ghost was = out@;
        if m <= n - i && same(slice(s, i, i + m), part) {
            assert(rest.take(m as int) =~= s@.subrange(i as int, i + m));
            assert(rest.skip(m as int) =~= s@.skip(i + m));
            i += m;
        } else {
            assert(m <= n - i ==> rest.take(m as int) =~= s@.subrange(i as int, i + m));
            let c = slice(s, i, i + 1);
            out.push_str(c);
            assert(c@ =~= seq![rest[0]]);
            assert(rest.skip(1) =~= s@.skip(i + 1));
            assert(was + (seq![rest[0]] + removed(rest.skip(1), part@)) =~= (was + seq![rest[0]])
                + removed(rest.skip(1), part@));
            i += 1;
        }
    }
    assert(whole =~= out@);
    out
}

/// Whether `c` is a digit.
pub open spec fn is_digit(c: char) -> bool {
    '0' <= c <= '9'
}

/// The number that digits write.
pub open spec fn number(digits: Seq<char>) -> nat
    decreases digits.len(),
{
    if digits.len() == 0 {
        0
    } else {
        number(digits.drop_last()) * 10 + (digits.last() as nat - '0' as nat) as nat
    }
}

/// The digits of a number that may have a plus sign.
pub open spec fn unsigned(s: Seq<char>) -> Seq<char> {
    if s.len() > 0 && s[0] == '+' {
        s.skip(1)
    } else {
        s
    }
}

/// Whether a text is a number, of at most `max`.
pub open spec fn is_number(s: Seq<char>, max: nat) -> bool {
    let d = unsigned(s);
    d.len() > 0 && (forall|i: int| 0 <= i < d.len() ==> is_digit(#[trigger] d[i])) && number(d)
        <= max
}

/// Digits before others only make the number larger.
proof fn lemma_number_grows(digits: Seq<char>, n: int)
    requires
        0 <= n <= digits.len(),
    ensures
        number(digits.take(n)) <= number(digits),
    decreases digits.len() - n,
{
    if n < digits.len() {
        lemma_number_grows(digits, n + 1);
        assert(digits.take(n + 1).drop_last() =~= digits.take(n));
    } else {
        assert(digits.take(n) =~= digits);
    }
}

/// The number that a text is, if it is one that fits.
pub fn parse_u64(s: &str) -> (r: Option<u64>)
    ensures
        match r {
            Some(n) => is_number(s@, u64::MAX as nat) && n == number(unsigned(s@)),
            None => !is_number(s@, u64::MAX as nat),
        },
{
    let cs = to_chars(s);
    let from: usize = if cs.len() > 0 && cs[0] == '+' {
        1
    } else {
        0
    };
    let ghost d = unsigned(s@);
    assert(d =~= cs@.skip(from as int));
    if from == cs.len() {
        return None;
    }
    let mut n: u64 = 0;
    let mut i: usize = from;
    assert(d.take(0) =~= Seq::empty());
    while i < cs.len()
        invariant
            from <= i <= cs@.len(),
            d == cs@.skip(from as int),
            d == unsigned(s@),
            d.len() > 0,
            n == number(d.take(i - from)),
            forall|k: int| 0 <= k < i - from ==> is_digit(#[trigger] d[k]),
        decreases cs@.len() - i,
    {
        let c = cs[i];
        assert(d[i - from] == c);
        if c < '0' || c > '9' {
            assert(!is_digit(d[i - from]));
            return None;
        }
        let v: u64 = (c as u32 - '0' as u32) as u64;
        assert(d.take(i - from + 1).drop_last() =~= d.take(i - from));
        assert(number(d.take(i - from + 1)) == n * 10 + v);
        proof {
            lemma_number_grows(d, i - from + 1);
        }
        if n > (u64::MAX - v) / 10 {
            assert(n * 10 + v > u64::MAX);
            return None;
        }
        n = n * 10 + v;
        i += 1;
    }
    assert(d.take(i - from) =~= d);
    Some(n)
}

/// The number that a text is, if it is one that fits.
pub fn parse_u32(s: &str) -> (r: Option<u32>)
    ensures
        match r {
            Some(n) => is_number(s@, u32::MAX as nat) && n == number(unsigned(s@)),
            None => !is_number(s@, u32::MAX as nat),
        },
{
    match parse_u64(s) {
        Some(n) => {
            if n <= u32::MAX as u64 {
                Some(n as u32)
            } else {
                None
            }
        },
        None => None,
    }
}

/// The number that a text is, with its sign, if it is one that fits.
pub open spec fn signed_value(s: Seq<char>) -> Option<int> {
    if s.len() > 0 && s[0] == '-' {
        let d = s.skip(1);
        if d.len() > 0 && d[0] != '+' && is_number(d, 0x8000_0000_0000_0000) {
            Some(-number(d))
        } else {
            None
        }
    } else if is_number(s, 0x7FFF_FFFF_FFFF_FFFF) {
        Some(number(unsigned(s)) as int)
    } else {
        None
    }
}

/// The number that a text is, with its sign, if it is one that fits.
pub fn parse_i64(s: &str) -> (r: Option<i64>)
    ensures
        match r {
            Some(n) => signed_value(s@) == Some(n as int),
            None => signed_value(s@) is None,
        },
{
    let cs = to_chars(s);
    let n: usize = cs.len();
    if n > 0 && cs[0] == '-' {
        let d = slice(s, 1, n);
        assert(d@ =~= s@.skip(1));
        if n == 1 || cs[1] == '+' {
            return None;
        }
        match parse_u64(d) {
            Some(v) => {
                if v <= 0x7FFF_FFFF_FFFF_FFFF {
                    Some(-(v as i64))
                } else if v == 0x8000_0000_0000_0000 {
                    Some(i64::MIN)
                } else {
                    None
                }
            },
            None => None,
        }
    } else {
        match parse_u64(s) {
            Some(v) => {
                if v <= 0x7FFF_FFFF_FFFF_FFFF {
                    Some(v as i64)
                } else {
                    None
                }
            },
            None => None,
        }
    }
}

/// The text of an optional string; nothing for none.
pub open spec fn or_empty(s: Option<String>) -> Seq<char> {
    match s {
        Some(s) => s@,
        None => Seq::empty(),
    }
}

/// The optional string, or an empty one.
pub fn or_empty_string(s: Option<String>) -> (r: String)
    ensures
        r@ == or_empty(s),
{
    match s {
        Some(s) => s,
        None => {
            let r = String::new();
            assert(r@ =~= Seq::empty());
            r
        },
    }
}

/// The last piece of a text is what follows its last separator.
pub proof fn lemma_split_last(head: Seq<char>, tail: Seq<char>, sep: char)
    requires
        !tail.contains(sep),
    ensures
        split_on(head + seq![sep] + tail, sep) == split_on(head, sep).push(tail),
    decreases tail.len(),
{
    let s = head + seq![sep] + tail;
    if tail.len() == 0 {
        assert(s.drop_last() =~= head);
        assert(tail =~= Seq::empty());
    } else {
        assert(tail.contains(tail[tail.len() - 1]));
        assert forall|i: int| 0 <= i < tail.drop_last().len() implies tail.drop_last()[i]
            != sep by {
            assert(tail.contains(tail[i]));
        }
        assert(s.drop_last() =~= head + seq![sep] + tail.drop_last());
        lemma_split_last(head, tail.drop_last(), sep);
        assert(tail.drop_last().push(tail.last()) =~= tail);
        assert(split_on(s, sep) =~= split_on(head, sep).push(tail));
    }
}

/// A text without the separator is one piece.
pub proof fn lemma_split_whole(s: Seq<char>, sep: char)
    requires
        !s.contains(sep),
    ensures
        split_on(s, sep) == seq![s],
    decreases s.len(),
{
    if s.len() == 0 {
        assert(s =~= Seq::empty());
    } else {
        assert(s.contains(s[s.len() - 1]));
        assert forall|i: int| 0 <= i < s.drop_last().len() implies s.drop_last()[i] != sep by {
            assert(s.contains(s[i]));
        }
        lemma_split_whole(s.drop_last(), sep);
        assert(s.drop_last().push(s.last()) =~= s);
        assert(split_on(s, sep) =~= seq![s]);
    }
}

/// The last place of a character holds it, and no later place does; there is none exactly where
/// the text lacks it.
pub proof fn law_last_index(s: Seq<char>, c: char)
    ensures
        last_index(s, c) is None <==> !s.contains(c),
        last_index(s, c) matches Some(i) ==> {
            &&& i < s.len()
            &&& s[i as int] == c
            &&& forall|j: int| i < j < s.len() ==> #[trigger] s[j] != c
        },
    decreases s.len(),
{
    if s.len() > 0 {
        law_last_index(s.drop_last(), c);
        let rest = s.drop_last();
        assert(s[s.len() - 1] == s.last());
        if rest.contains(c) {
            let i = choose|i: int| 0 <= i < rest.len() && rest[i] == c;
            assert(s[i] == c);
        }
        if s.contains(c) && s.last() != c {
            let i = choose|i: int| 0 <= i < s.len() && s[i] == c;
            assert(rest[i] == c);
        }
        if let Some(i) = last_index(rest, c) {
            assert(rest[i as int] == s[i as int]);
            assert forall|j: int| i < j < s.len() && s.last() != c implies #[trigger] s[j] != c by {
                if j < rest.len() {
                    assert(rest[j] == s[j]);
                }
            }
        }
    }
}

/// The first place of a character holds it, and no earlier place does; where the text lacks it,
/// that is its end.
pub proof fn law_first_index(s: Seq<char>, c: char)
    ensures
        first_index(s, c) <= s.len(),
        forall|j: int| 0 <= j < first_index(s, c) ==> #[trigger] s[j] != c,
        first_index(s, c) < s.len() ==> s[first_index(s, c) as int] == c,
        first_index(s, c) == s.len() <==> !s.contains(c),
    decreases s.len(),
{
    if s.len() > 0 && s[0] != c {
        let rest = s.skip(1);
        law_first_index(rest, c);
        let n = first_index(s, c) as int;
        assert forall|j: int| 0 <= j < n implies #[trigger] s[j] != c by {
            if j > 0 {
                assert(rest[j - 1] == s[j]);
            }
        }
        if n < s.len() {
            assert(rest[n - 1] == s[n]);
        }
    }
    if s.contains(c) {
        let i = choose|i: int| 0 <= i < s.len() && s[i] == c;
        assert(first_index(s, c) <= i);
    }
}

/// What a number is written as tells that number: digits only, with no needless zero before them.
pub proof fn law_numbers_read_back(n: nat)
    ensures
        number(decimal(n)) == n,
        decimal(n).len() > 0,
        forall|i: int| 0 <= i < decimal(n).len() ==> '0' <= #[trigger] decimal(n)[i] <= '9',
        n >= 10 ==> decimal(n)[0] != '0',
        forall|max: nat| n <= max ==> #[trigger] is_number(decimal(n), max),
    decreases n,
{
    let text = decimal(n);
    if n < 10 {
        assert(text.drop_last() =~= Seq::empty());
        assert(number(text.drop_last()) == 0);
        assert(text.last() as nat == 0x30 + n);
    } else {
        law_numbers_read_back(n / 10);
        assert(text.drop_last() =~= decimal(n / 10));
        assert(text.last() as nat == 0x30 + n % 10);
        if n / 10 < 10 {
            assert(decimal(n / 10)[0] as nat == 0x30 + n / 10);
        }
        assert(text[0] == decimal(n / 10)[0]);
        assert forall|i: int| 0 <= i < text.len() implies '0' <= #[trigger] text[i] <= '9' by {
            if i < text.len() - 1 {
                assert(text[i] == decimal(n / 10)[i]);
            }
        }
    }
    assert(unsigned(text) == text) by {
        assert('0' <= text[0] <= '9');
    }
}

/// A sign is read as one, and zeros before a number do not change it.
pub proof fn law_signs_and_zeros(n: nat)
    requires
        n <= 0x7FFF_FFFF_FFFF_FFFF,
    ensures
        signed_value(signed_decimal(n as int)) == Some(n as int),
        signed_value(signed_decimal(-n)) == Some(-n),
        signed_value(seq!['+'] + decimal(n)) == Some(n as int),
        number(seq!['0'] + decimal(n)) == n,
{
    law_numbers_read_back(n);
    let text = decimal(n);
    assert('0' <= text[0] <= '9');
    lemma_leading_zero(text);
    assert((seq!['+'] + text).skip(1) =~= text);
    assert((seq!['-'] + text).skip(1) =~= text);
    assert(is_number(text, 0x7FFF_FFFF_FFFF_FFFF));
    assert(is_number(text, 0x8000_0000_0000_0000));
    assert(unsigned(seq!['+'] + text) == text);
    assert(unsigned(text) == text);
    assert(is_number(seq!['+'] + text, 0x7FFF_FFFF_FFFF_FFFF));
}

proof fn lemma_leading_zero(digits: Seq<char>)
    ensures
        number(seq!['0'] + digits) == number(digits),
    decreases digits.len(),
{
    let s = seq!['0'] + digits;
    if digits.len() == 0 {
        assert(s.drop_last() =~= Seq::empty());
        assert(number(s.drop_last()) == 0);
        assert(s.last() == '0');
    } else {
        assert(s.drop_last() =~= seq!['0'] + digits.drop_last());
        assert(s.last() == digits.last());
        lemma_leading_zero(digits.drop_last());
    }
}

/// Trimming takes white space off one end, all of it and nothing else.
pub proof fn law_trimming(s: Seq<char>)
    ensures
        exists|n: int|
            0 <= n <= s.len() && #[trigger] s.skip(n) == trimmed_start(s) && (forall|i: int|
                0 <= i < n ==> is_space(#[trigger] s[i])),
        exists|n: int|
            0 <= n <= s.len() && #[trigger] s.take(n) == trimmed_space_end(s) && (forall|i: int|
                n <= i < s.len() ==> is_space(#[trigger] s[i])),
        trimmed_start(s).len() > 0 ==> !is_space(trimmed_start(s)[0]),
        trimmed_space_end(s).len() > 0 ==> !is_space(trimmed_space_end(s).last()),
{
    lemma_trimmed_start(s);
    lemma_trimmed_space_end(s);
}

proof fn lemma_trimmed_start(s: Seq<char>)
    ensures
        exists|n: int|
            0 <= n <= s.len() && #[trigger] s.skip(n) == trimmed_start(s) && (forall|i: int|
                0 <= i < n ==> is_space(#[trigger] s[i])),
        trimmed_start(s).len() > 0 ==> !is_space(trimmed_start(s)[0]),
    decreases s.len(),
{
    if s.len() > 0 && is_space(s[0]) {
        let rest = s.skip(1);
        lemma_trimmed_start(rest);
        let n = choose|n: int|
            0 <= n <= rest.len() && #[trigger] rest.skip(n) == trimmed_start(rest) && (forall|
                i: int,
            |
                0 <= i < n ==> is_space(#[trigger] rest[i]));
        assert(s.skip(n + 1) =~= rest.skip(n));
        assert forall|i: int| 0 <= i < n + 1 implies is_space(#[trigger] s[i]) by {
            if i > 0 {
                assert(rest[i - 1] == s[i]);
            }
        }
    } else {
        assert(s.skip(0) =~= s);
    }
}

proof fn lemma_trimmed_space_end(s: Seq<char>)
    ensures
        exists|n: int|
            0 <= n <= s.len() && #[trigger] s.take(n) == trimmed_space_end(s) && (forall|i: int|
                n <= i < s.len() ==> is_space(#[trigger] s[i])),
        trimmed_space_end(s).len() > 0 ==> !is_space(trimmed_space_end(s).last()),
    decreases s.len(),
{
    if s.len() > 0 && is_space(s.last()) {
        let rest = s.drop_last();
        lemma_trimmed_space_end(rest);
        let n = choose|n: int|
            0 <= n <= rest.len() && #[trigger] rest.take(n) == trimmed_space_end(rest) && (forall|
                i: int,
            |
                n <= i < rest.len() ==> is_space(#[trigger] rest[i]));
        assert(s.take(n) =~= rest.take(n));
        assert forall|i: int| n <= i < s.len() implies is_space(#[trigger] s[i]) by {
            if i < rest.len() {
                assert(rest[i] == s[i]);
            }
        }
    } else {
        assert(s.take(s.len() as int) =~= s);
    }
}

/// Trimming a character off the end takes all of it off there, and nothing else.
pub proof fn law_trimming_a_character(s: Seq<char>, c: char)
    ensures
        exists|n: int|
            0 <= n <= s.len() && #[trigger] s.take(n) == trimmed_end(s, c) && (forall|i: int|
                n <= i < s.len() ==> #[trigger] s[i] == c),
        trimmed_end(s, c).len() > 0 ==> trimmed_end(s, c).last() != c,
    decreases s.len(),
{
    if s.len() > 0 && s.last() == c {
        let rest = s.drop_last();
        law_trimming_a_character(rest, c);
        let n = choose|n: int|
            0 <= n <= rest.len() && #[trigger] rest.take(n) == trimmed_end(rest, c) && (forall|
                i: int,
            |
                n <= i < rest.len() ==> #[trigger] rest[i] == c);
        assert(s.take(n) =~= rest.take(n));
        assert forall|i: int| n <= i < s.len() implies #[trigger] s[i] == c by {
            if i < rest.len() {
                assert(rest[i] == s[i]);
            }
        }
    } else {
        assert(s.take(s.len() as int) =~= s);
    }
}

/// A part that a text lacks is not removed from it.
pub proof fn lemma_nothing_removed(s: Seq<char>, part: Seq<char>)
    requires
        !holds(s, part),
    ensures
        removed(s, part) == s,
    decreases s.len(),
{
    if s.len() > 0 {
        if 0 < part.len() <= s.len() && s.take(part.len() as int) == part {
            assert(s.subrange(0, 0int + part.len()) =~= part);
            assert(holds(s, part));
        } else {
            let rest = s.skip(1);
            if holds(rest, part) {
                let i = choose|i: int|
                    0 <= i <= rest.len() - part.len() && #[trigger] rest.subrange(
                        i,
                        i + part.len(),
                    ) == part;
                assert(s.subrange(i + 1, i + 1 + part.len()) =~= rest.subrange(i, i + part.len()));
                assert(holds(s, part));
            }
            lemma_nothing_removed(rest, part);
            assert(seq![s[0]] + rest =~= s);
        }
    } else {
        assert(removed(s, part) =~= s);
    }
}

/// A part at the start of a text is removed from it.
pub proof fn lemma_removed_prefix(part: Seq<char>, rest: Seq<char>)
    requires
        part.len() > 0,
        !holds(rest, part),
    ensures
        removed(part + rest, part) == rest,
{
    let s = part + rest;
    assert(s.take(part.len() as int) =~= part);
    assert(s.skip(part.len() as int) =~= rest);
    lemma_nothing_removed(rest, part);
}

/// Only plain capitals have another small letter, and only plain small letters another capital; the
/// one undoes the other.
pub proof fn law_case_of_plain_letters(c: char)
    ensures
        'A' <= c <= 'Z' ==> 'a' <= ascii_lower(c) <= 'z' && ascii_upper(ascii_lower(c)) == c
            && ascii_lower(c) as int - 'a' as int == c as int - 'A' as int,
        'a' <= c <= 'z' ==> 'A' <= ascii_upper(c) <= 'Z' && ascii_lower(ascii_upper(c)) == c,
        !('A' <= c <= 'Z') ==> ascii_lower(c) == c,
        !('a' <= c <= 'z') ==> ascii_upper(c) == c,
{
}

} // verus!
