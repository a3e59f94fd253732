//! Text utilities the reader builds on: characters of strings, book
//! fingerprints, paths as shown to the reader, and the tab-separated messages
//! between copies of the reader.
use vstd::prelude::*;

verus! {

// ---------------------------------------------------------------------
// Characters of a string
// ---------------------------------------------------------------------

/// Calls `String::push`, which appends `c` at the end of `s`; the contract
/// states exactly that.
#[verifier::external_body]
pub(crate) fn push_char(s: &mut String, c: char)
    ensures
        final(s)@ == old(s)@.push(c),
{
    s.push(c)
}

/// The characters of a string, in order.
pub fn chars_of(s: &str) -> (v: Vec<char>)
    ensures
        v@ == s@,
{
    let mut v: Vec<char> = Vec::new();
    for c in it: s.chars()
        invariant
            it.seq() == s@,
            v@ == it.seq().take(it.index() as int),
    {
        assert(it.seq().take(it.index() + 1) =~= it.seq().take(it.index() as int).push(c));
        v.push(c);
    }
    assert(v@ =~= s@);
    v
}

} // verus!

verus! {

/// Whether two texts are the same, character for character.
pub fn same_text(a: &str, b: &str) -> (r: bool)
    ensures
        r == (a@ == b@),
{
    let x = chars_of(a);
    let y = chars_of(b);
    if x.len() != y.len() {
        return false;
    }
    let mut i: usize = 0;
    while i < x.len()
        invariant
            x@ == a@,
            y@ == b@,
            x@.len() == y@.len(),
            i <= x@.len(),
            forall|j: int| 0 <= j < i ==> x@[j] == y@[j],
        decreases x@.len() - i,
    {
        if x[i] != y[i] {
            assert(a@[i as int] != b@[i as int]);
            return false;
        }
        i = i + 1;
    }
    assert(x@ =~= y@);
    true
}

/// A string built from a sequence of characters.
pub fn string_of(cs: &Vec<char>) -> (r: String)
    ensures
        r@ == cs@,
{
    let mut r = String::new();
    let mut i: usize = 0;
    while i < cs.len()
        invariant
            i <= cs@.len(),
            r@ == cs@.take(i as int),
        decreases cs@.len() - i,
    {
        assert(cs@.take(i + 1) =~= cs@.take(i as int).push(cs@[i as int]));
        push_char(&mut r, cs[i]);
        i = i + 1;
    }
    assert(cs@.take(cs@.len() as int) =~= cs@);
    r
}

/// The characters of `cs` from index `from` up to, not including, `to`, as a string.
pub fn string_of_range(cs: &Vec<char>, from: usize, to: usize) -> (r: String)
    requires
        from <= to <= cs@.len(),
    ensures
        r@ == cs@.subrange(from as int, to as int),
{
    let mut r = String::new();
    let mut i: usize = from;
    while i < to
        invariant
            from <= i <= to <= cs@.len(),
            r@ == cs@.subrange(from as int, i as int),
        decreases to - i,
    {
        assert(cs@.subrange(from as int, i + 1) =~= cs@.subrange(from as int, i as int).push(
            cs@[i as int],
        ));
        push_char(&mut r, cs[i]);
        i = i + 1;
    }
    r
}

// ---------------------------------------------------------------------
// Hexadecimal digests and document fingerprints
// ---------------------------------------------------------------------

/// The character of a hexadecimal digit `n` (0 to 15), lower case.
pub open spec fn hex_digit(n: int) -> char {
    if n < 10 {
        (('0' as int) + n) as char
    } else {
        (('a' as int) + n - 10) as char
    }
}

/// Lower-case hexadecimal text of a byte string, two digits per byte, most
/// significant digit first.
pub open spec fn spec_hex_lower(bytes: Seq<u8>) -> Seq<char>
    decreases bytes.len(),
{
    if bytes.len() == 0 {
        Seq::empty()
    } else {
        spec_hex_lower(bytes.drop_last()) + seq![
            hex_digit(bytes.last() as int / 16),
            hex_digit(bytes.last() as int % 16),
        ]
    }
}

fn hex_digit_char(n: u8) -> (c: char)
    requires
        n < 16,
    ensures
        c == hex_digit(n as int),
{
    if n < 10 {
        ((48u8 + n) as char)
    } else {
        ((87u8 + n) as char)
    }
}

/// Writes bytes as lower-case hexadecimal, two digits per byte.
pub fn hex_lower(bytes: &[u8]) -> (r: String)
    ensures
        r@ == spec_hex_lower(bytes@),
{
    let mut r = String::new();
    let mut i: usize = 0;
    while i < bytes.len()
        invariant
            i <= bytes@.len(),
            r@ == spec_hex_lower(bytes@.subrange(0, i as int)),
        decreases bytes@.len() - i,
    {
        let b = bytes[i];
        push_char(&mut r, hex_digit_char(b / 16));
        push_char(&mut r, hex_digit_char(b % 16));
        assert(bytes@.subrange(0, i + 1).drop_last() =~= bytes@.subrange(0, i as int));
        i = i + 1;
    }
    assert(bytes@.subrange(0, bytes@.len() as int) =~= bytes@);
    r
}

/// The MD5 digest of a byte string.
pub uninterp spec fn md5_digest_of(data: Seq<u8>) -> Seq<u8>;

/// Calls `md5::compute`, which returns the 16-byte MD5 digest of its input.
/// The contract names the digest (`md5_digest_of`) as a function of the input
/// bytes alone and says nothing more of it.
#[verifier::external_body]
fn md5_digest(data: &[u8]) -> (r: [u8; 16])
    ensures
        r@ == md5_digest_of(data@),
{
    md5::compute(data).0
}

/// The fingerprint of a book made from a digest: its lower-case hexadecimal text.
pub fn fingerprint_from_digest(digest: &[u8; 16]) -> (r: String)
    ensures
        r@ == spec_hex_lower(digest@),
{
    hex_lower(digest.as_slice())
}

/// The fingerprint of a PDF file that carries no document ID: the MD5 digest of
/// its leading bytes, in lower-case hexadecimal.
pub fn fingerprint_of_leading_bytes(data: &[u8]) -> (r: String)
    ensures
        r@ == spec_hex_lower(md5_digest_of(data@)),
{
    let digest = md5_digest(data);
    fingerprint_from_digest(&digest)
}

/// The fingerprint of a PDF file taken from the printed form of the first entry
/// of its trailer's `ID` array: the text without its opening and closing
/// delimiter characters.
pub fn fingerprint_from_id_text(id_text: &str) -> (r: String)
    requires
        id_text@.len() >= 2,
        (id_text@[0] as u32) < 128,
        (id_text@.last() as u32) < 128,
    ensures
        r@ == id_text@.subrange(1, id_text@.len() - 1),
{
    let cs = chars_of(id_text);
    string_of_range(&cs, 1, cs.len() - 1)
}

// ---------------------------------------------------------------------
// Paths as shown to the reader
// ---------------------------------------------------------------------

/// `p` is a prefix of `s`.
pub open spec fn is_prefix_of(p: Seq<char>, s: Seq<char>) -> bool {
    p.len() <= s.len() && s.subrange(0, p.len() as int) == p
}

/// A path as shown to the reader: one under the home directory starts with `~`
/// in place of the home directory.
pub open spec fn spec_user_facing_path(path: Seq<char>, home: Seq<char>) -> Seq<char> {
    if is_prefix_of(home, path) {
        seq!['~'] + path.subrange(home.len() as int, path.len() as int)
    } else {
        path
    }
}

/// Whether `p` is a prefix of `s`.
pub fn starts_with(s: &Vec<char>, p: &Vec<char>) -> (r: bool)
    ensures
        r == is_prefix_of(p@, s@),
{
    if p.len() > s.len() {
        return false;
    }
    let mut i: usize = 0;
    while i < p.len()
        invariant
            p@.len() <= s@.len(),
            i <= p@.len(),
            s@.subrange(0, i as int) == p@.subrange(0, i as int),
        decreases p@.len() - i,
    {
        if s[i] != p[i] {
            assert(s@.subrange(0, p@.len() as int)[i as int] != p@[i as int]);
            return false;
        }
        assert(s@.subrange(0, i + 1) =~= p@.subrange(0, i + 1));
        i = i + 1;
    }
    assert(p@.subrange(0, p@.len() as int) =~= p@);
    true
}

/// The path of a book as shown in window titles: the home directory, when the
/// path starts with it, is written `~`.
pub fn user_facing_path(path: &str, home: Option<&str>) -> (r: String)
    ensures
        r@ == match home {
            Some(h) => spec_user_facing_path(path@, h@),
            None => path@,
        },
{
    let cs = chars_of(path);
    match home {
        Some(h) => {
            let hs = chars_of(h);
            if starts_with(&cs, &hs) {
                let mut r = String::new();
                push_char(&mut r, '~');
                let rest = string_of_range(&cs, hs.len(), cs.len());
                r.append(rest.as_str());
                r
            } else {
                string_of(&cs)
            }
        },
        None => string_of(&cs),
    }
}

// ---------------------------------------------------------------------
// Messages between copies of the reader: arguments joined by tabs
// ---------------------------------------------------------------------

/// The pieces of `s` between occurrences of `sep`; always at least one piece.
pub open spec fn split_on(s: Seq<char>, sep: char) -> Seq<Seq<char>>
    decreases s.len(),
{
    if s.len() == 0 {
        seq![Seq::empty()]
    } else {
        let prev = split_on(s.drop_last(), sep);
        if s.last() == sep {
            prev.push(Seq::empty())
        } else {
            prev.update(prev.len() - 1, prev.last().push(s.last()))
        }
    }
}

/// The pieces joined, with `sep` between each two.
pub open spec fn join_on(parts: Seq<Seq<char>>, sep: char) -> Seq<char>
    decreases parts.len(),
{
    if parts.len() == 0 {
        Seq::empty()
    } else if parts.len() == 1 {
        parts[0]
    } else {
        join_on(parts.drop_last(), sep).push(sep) + parts.last()
    }
}

/// The views of a sequence of strings.
pub open spec fn views(ss: Seq<String>) -> Seq<Seq<char>> {
    ss.map_values(|s: String| s@)
}

proof fn lemma_split_on_nonempty(s: Seq<char>, sep: char)
    ensures
        split_on(s, sep).len() >= 1,
    decreases s.len(),
{
    if s.len() > 0 {
        lemma_split_on_nonempty(s.drop_last(), sep);
    }
}

proof fn lemma_split_on_append(a: Seq<char>, b: Seq<char>, sep: char)
    requires
        !b.contains(sep),
    ensures
        split_on(a + b, sep) == split_on(a, sep).update(
            split_on(a, sep).len() - 1,
            split_on(a, sep).last() + b,
        ),
    decreases b.len(),
{
    lemma_split_on_nonempty(a, sep);
    if b.len() == 0 {
        assert(a + b =~= a);
        assert(split_on(a, sep).last() + b =~= split_on(a, sep).last());
        assert(split_on(a, sep).update(split_on(a, sep).len() - 1, split_on(a, sep).last())
            =~= split_on(a, sep));
    } else {
        let b0 = b.drop_last();
        assert(!b0.contains(sep)) by {
            if b0.contains(sep) {
                let k = choose|k: int| 0 <= k < b0.len() && b0[k] == sep;
                assert(b[k] == sep);
            }
        }
        lemma_split_on_append(a, b0, sep);
        assert((a + b).drop_last() =~= a + b0);
        assert((a + b).last() == b.last());
        assert(b.last() != sep) by {
            assert(b[b.len() - 1] == b.last());
        }
        lemma_split_on_nonempty(a + b0, sep);
        assert((split_on(a, sep).last() + b0).push(b.last()) =~= split_on(a, sep).last() + b);
        assert(split_on(a + b, sep) =~= split_on(a, sep).update(
            split_on(a, sep).len() - 1,
            split_on(a, sep).last() + b,
        ));
    }
}

/// Splitting what was joined gives back the pieces, when there is at least one
/// piece and none holds the separator.
pub proof fn lemma_split_on_join_on(parts: Seq<Seq<char>>, sep: char)
    requires
        parts.len() >= 1,
        forall|i: int| 0 <= i < parts.len() ==> !(#[trigger] parts[i]).contains(sep),
    ensures
        split_on(join_on(parts, sep), sep) == parts,
    decreases parts.len(),
{
    if parts.len() == 1 {
        lemma_split_on_append(Seq::empty(), parts[0], sep);
        assert(Seq::<char>::empty() + parts[0] =~= parts[0]);
        assert(split_on(Seq::<char>::empty(), sep) =~= seq![Seq::<char>::empty()]);
        assert(split_on(parts[0], sep) =~= parts);
    } else {
        let init = parts.drop_last();
        assert forall|i: int| 0 <= i < init.len() implies !(#[trigger] init[i]).contains(sep) by {
            assert(init[i] == parts[i]);
        }
        lemma_split_on_join_on(init, sep);
        let a = join_on(init, sep).push(sep);
        assert(!parts.last().contains(sep)) by {
            assert(parts[parts.len() - 1] == parts.last());
        }
        lemma_split_on_append(a, parts.last(), sep);
        assert(a.drop_last() =~= join_on(init, sep));
        assert(split_on(a, sep) =~= init.push(Seq::empty()));
        assert(Seq::<char>::empty() + parts.last() =~= parts.last());
        assert(split_on(join_on(parts, sep), sep) =~= parts);
    }
}

/// Splits a message at its tab characters: the arguments of another copy of
/// the reader, as it sends them.
pub fn split_on_tab(message: &str) -> (r: Vec<String>)
    ensures
        views(r@) == split_on(message@, '\t'),
{
    let cs = chars_of(message);
    let mut pieces: Vec<String> = Vec::new();
    let mut current = String::new();
    let mut i: usize = 0;
    while i < cs.len()
        invariant
            i <= cs@.len(),
            cs@ == message@,
            views(pieces@).push(current@) == split_on(cs@.take(i as int), '\t'),
        decreases cs@.len() - i,
    {
        let c = cs[i];
        let ghost before = cs@.take(i as int);
        assert(cs@.take(i + 1).drop_last() =~= before);
        assert(cs@.take(i + 1).last() == c);
        if c == '\t' {
            let done = current;
            proof {
                assert(views(pieces@.push(done)) =~= views(pieces@).push(done@));
            }
            pieces.push(done);
            current = String::new();
            assert(views(pieces@).push(current@) =~= split_on(cs@.take(i + 1), '\t'));
        } else {
            let ghost old_current = current@;
            push_char(&mut current, c);
            assert(views(pieces@).push(current@) =~= views(pieces@).push(old_current).update(
                views(pieces@).len() as int,
                old_current.push(c),
            ));
        }
        i = i + 1;
    }
    assert(cs@.take(cs@.len() as int) =~= cs@);
    let ghost ps = pieces@;
    pieces.push(current);
    assert(views(pieces@) =~= views(ps).push(current@));
    pieces
}

/// Joins arguments with tab characters, as a message to another copy of the reader.
pub fn join_with_tab(args: &Vec<String>) -> (r: String)
    ensures
        r@ == join_on(views(args@), '\t'),
{
    let mut r = String::new();
    let mut i: usize = 0;
    while i < args.len()
        invariant
            i <= args@.len(),
            r@ == join_on(views(args@.take(i as int)), '\t'),
        decreases args@.len() - i,
    {
        let ghost before = views(args@.take(i as int));
        assert(views(args@.take(i + 1)).drop_last() =~= before);
        assert(views(args@.take(i + 1)).last() == args@[i as int]@);
        if i > 0 {
            push_char(&mut r, '\t');
        } else {
            assert(r@ =~= Seq::<char>::empty());
        }
        r.append(args[i].as_str());
        proof {
            if i == 0 {
                assert(r@ =~= args@[0]@);
            }
        }
        i = i + 1;
    }
    assert(args@.take(args@.len() as int) =~= args@);
    r
}

} // verus!
