//! The byte layout of a modpack inside an archive.
//!
//! The layout is MessagePack, written the one shortest way: a modpack is a
//! map of `name` and `mods`, the mods are an array, and each mod is a map of
//! `id` and `version` or of `name` and `source`. Which of the two keys a map
//! carries tells the two kinds of mod apart.

use vstd::arithmetic::div_mod::lemma_fundamental_div_mod_converse;
use vstd::prelude::*;
use vstd::slice::*;
use vstd::utf8::*;

use crate::modpack_file::{mod_views, KilnFile, KilnMod, ModView, PackView};
use crate::text::str_eq;

verus! {

/// The longest text, in bytes, and the longest list that the layout records.
pub open spec fn max_len() -> nat {
    0xffff_ffff
}

/// The number that two bytes spell, the high byte first.
pub open spec fn be16(b1: u8, b0: u8) -> nat {
    (b1 as nat) * 256 + (b0 as nat)
}

/// The number that four bytes spell, the highest byte first.
pub open spec fn be32(b3: u8, b2: u8, b1: u8, b0: u8) -> nat {
    (b3 as nat) * 16777216 + (b2 as nat) * 65536 + (b1 as nat) * 256 + (b0 as nat)
}

/// The two bytes that spell `n`, the high byte first.
pub open spec fn bytes16(n: nat) -> Seq<u8> {
    seq![(n / 256) as u8, (n % 256) as u8]
}

/// The four bytes that spell `n`, the highest byte first.
pub open spec fn bytes32(n: nat) -> Seq<u8> {
    seq![
        (n / 16777216) as u8,
        ((n / 65536) % 256) as u8,
        ((n / 256) % 256) as u8,
        (n % 256) as u8,
    ]
}

/// What stands before a text of `n` bytes: the shortest of the four forms
/// that can hold `n`.
pub open spec fn str_header(n: nat) -> Seq<u8> {
    if n < 32 {
        seq![(0xa0 + n) as u8]
    } else if n < 256 {
        seq![0xd9u8, n as u8]
    } else if n < 65536 {
        seq![0xdau8] + bytes16(n)
    } else {
        seq![0xdbu8] + bytes32(n)
    }
}

/// What stands before a list of `n` items: the shortest of the three forms
/// that can hold `n`.
pub open spec fn array_header(n: nat) -> Seq<u8> {
    if n < 16 {
        seq![(0x90 + n) as u8]
    } else if n < 65536 {
        seq![0xdcu8] + bytes16(n)
    } else {
        seq![0xddu8] + bytes32(n)
    }
}

/// Whether the layout can record the text: its UTF-8 form is short enough.
pub open spec fn text_fits(text: Seq<char>) -> bool {
    encode_utf8(text).len() <= max_len()
}

/// A text in the layout: its length in bytes, then its UTF-8 form.
#[verifier::opaque]
pub open spec fn pack_str(text: Seq<char>) -> Seq<u8> {
    str_header(encode_utf8(text).len()) + encode_utf8(text)
}

/// A key and its text, one after the other.
pub open spec fn pack_pair(key: Seq<char>, text: Seq<char>) -> Seq<u8> {
    pack_str(key) + pack_str(text)
}

/// A mod in the layout: a map of two entries, whose keys name its kind.
#[verifier::opaque]
pub open spec fn pack_mod(entry: ModView) -> Seq<u8> {
    match entry {
        ModView::ModDbMod { id, version } => seq![0x82u8] + pack_pair("id"@, id) + pack_pair(
            "version"@,
            version,
        ),
        ModView::OtherMod { name, source } => seq![0x82u8] + pack_pair("name"@, name) + pack_pair(
            "source"@,
            source,
        ),
    }
}

/// The mods of a list in the layout, one after the other.
pub open spec fn pack_mods(mods: Seq<ModView>) -> Seq<u8>
    decreases mods.len(),
{
    if mods.len() == 0 {
        Seq::empty()
    } else {
        pack_mod(mods[0]) + pack_mods(mods.drop_first())
    }
}

/// A modpack in the layout: a map of its name and of the list of its mods.
pub open spec fn pack_file(file: PackView) -> Seq<u8> {
    seq![0x82u8] + pack_pair("name"@, file.name) + pack_str("mods"@) + array_header(
        file.mods.len(),
    ) + pack_mods(file.mods)
}

/// Whether the layout can record the mod.
pub open spec fn mod_fits(entry: ModView) -> bool {
    match entry {
        ModView::ModDbMod { id, version } => text_fits(id) && text_fits(version),
        ModView::OtherMod { name, source } => text_fits(name) && text_fits(source),
    }
}

/// Whether the layout can record the modpack: no text in it is too long,
/// and it has not too many mods.
pub open spec fn fits(file: PackView) -> bool {
    &&& text_fits(file.name)
    &&& file.mods.len() <= max_len()
    &&& forall|i: int| 0 <= i < file.mods.len() ==> mod_fits(#[trigger] file.mods[i])
}

/// The modpack that the bytes are the layout of, if they are the layout of
/// one. [`lemma_pack_is_injective`] shows that there is at most one.
pub open spec fn unpacked(bytes: Seq<u8>) -> Option<PackView> {
    if exists|file: PackView| fits(file) && #[trigger] pack_file(file) == bytes {
        Some(choose|file: PackView| fits(file) && #[trigger] pack_file(file) == bytes)
    } else {
        None
    }
}

// ---------------------------------------------------------------------
// Reading, as mathematics. Each function takes the bytes that are left and
// gives what it read together with the number of bytes it took.
// ---------------------------------------------------------------------

spec fn parse_str_header(s: Seq<u8>) -> Option<(nat, int)> {
    if s.len() < 1 {
        None
    } else if 0xa0 <= s[0] < 0xc0 {
        Some(((s[0] - 0xa0) as nat, 1int))
    } else if s[0] == 0xd9 {
        if s.len() >= 2 && s[1] >= 32 {
            Some((s[1] as nat, 2int))
        } else {
            None
        }
    } else if s[0] == 0xda {
        if s.len() >= 3 && be16(s[1], s[2]) >= 256 {
            Some((be16(s[1], s[2]), 3int))
        } else {
            None
        }
    } else if s[0] == 0xdb {
        if s.len() >= 5 && be32(s[1], s[2], s[3], s[4]) >= 65536 {
            Some((be32(s[1], s[2], s[3], s[4]), 5int))
        } else {
            None
        }
    } else {
        None
    }
}

spec fn parse_array_header(s: Seq<u8>) -> Option<(nat, int)> {
    if s.len() < 1 {
        None
    } else if 0x90 <= s[0] < 0xa0 {
        Some(((s[0] - 0x90) as nat, 1int))
    } else if s[0] == 0xdc {
        if s.len() >= 3 && be16(s[1], s[2]) >= 16 {
            Some((be16(s[1], s[2]), 3int))
        } else {
            None
        }
    } else if s[0] == 0xdd {
        if s.len() >= 5 && be32(s[1], s[2], s[3], s[4]) >= 65536 {
            Some((be32(s[1], s[2], s[3], s[4]), 5int))
        } else {
            None
        }
    } else {
        None
    }
}

#[verifier::opaque]
spec fn parse_str(s: Seq<u8>) -> Option<(Seq<char>, int)> {
    match parse_str_header(s) {
        Some((n, h)) => {
            let body = s.subrange(h, h + n);
            if h + n <= s.len() && valid_utf8(body) {
                Some((decode_utf8(body), h + n))
            } else {
                None
            }
        },
        None => None,
    }
}

proof fn lemma_bytes16(n: nat)
    requires
        n < 65536,
    ensures
        be16(bytes16(n)[0], bytes16(n)[1]) == n,
        bytes16(n).len() == 2,
{
}

proof fn lemma_bytes32(n: nat)
    requires
        n <= max_len(),
    ensures
        be32(bytes32(n)[0], bytes32(n)[1], bytes32(n)[2], bytes32(n)[3]) == n,
        bytes32(n).len() == 4,
{
}

proof fn lemma_be16(b1: u8, b0: u8)
    ensures
        be16(b1, b0) < 65536,
        bytes16(be16(b1, b0)) == seq![b1, b0],
{
    let n = be16(b1, b0) as int;
    lemma_fundamental_div_mod_converse(n, 256, b1 as int, b0 as int);
}

proof fn lemma_be32(b3: u8, b2: u8, b1: u8, b0: u8)
    ensures
        be32(b3, b2, b1, b0) <= max_len(),
        bytes32(be32(b3, b2, b1, b0)) == seq![b3, b2, b1, b0],
{
    let n = be32(b3, b2, b1, b0) as int;
    let top = b3 as int;
    let upper = b3 as int * 256 + b2 as int;
    let most = b3 as int * 65536 + b2 as int * 256 + b1 as int;
    lemma_fundamental_div_mod_converse(
        n,
        16777216,
        top,
        b2 as int * 65536 + b1 as int * 256 + b0 as int,
    );
    lemma_fundamental_div_mod_converse(n, 65536, upper, b1 as int * 256 + b0 as int);
    lemma_fundamental_div_mod_converse(upper, 256, top, b2 as int);
    lemma_fundamental_div_mod_converse(n, 256, most, b0 as int);
    lemma_fundamental_div_mod_converse(most, 256, upper, b1 as int);
}

proof fn lemma_str_header_parses(n: nat, rest: Seq<u8>)
    requires
        n <= max_len(),
    ensures
        parse_str_header(str_header(n) + rest) == Some((n, str_header(n).len() as int)),
        1 <= str_header(n).len() <= 5,
{
    if 256 <= n < 65536 {
        lemma_bytes16(n);
    } else if 65536 <= n {
        lemma_bytes32(n);
    }
}

proof fn lemma_str_header_sound(s: Seq<u8>)
    requires
        parse_str_header(s) is Some,
    ensures
        ({
            let (n, h) = parse_str_header(s)->0;
            &&& n <= max_len()
            &&& 1 <= h <= s.len()
            &&& s.take(h as int) == str_header(n)
        }),
{
    if s[0] == 0xda {
        lemma_be16(s[1], s[2]);
    } else if s[0] == 0xdb {
        lemma_be32(s[1], s[2], s[3], s[4]);
    }
}

proof fn lemma_array_header_parses(n: nat, rest: Seq<u8>)
    requires
        n <= max_len(),
    ensures
        parse_array_header(array_header(n) + rest) == Some((n, array_header(n).len() as int)),
        1 <= array_header(n).len() <= 5,
{
    if 16 <= n < 65536 {
        lemma_bytes16(n);
    } else if 65536 <= n {
        lemma_bytes32(n);
    }
}

proof fn lemma_array_header_sound(s: Seq<u8>)
    requires
        parse_array_header(s) is Some,
    ensures
        ({
            let (n, h) = parse_array_header(s)->0;
            &&& n <= max_len()
            &&& 1 <= h <= s.len()
            &&& s.take(h as int) == array_header(n)
        }),
{
    if s[0] == 0xdc {
        lemma_be16(s[1], s[2]);
    } else if s[0] == 0xdd {
        lemma_be32(s[1], s[2], s[3], s[4]);
    }
}

proof fn lemma_str_parses(text: Seq<char>, rest: Seq<u8>)
    requires
        text_fits(text),
    ensures
        parse_str(pack_str(text) + rest) == Some((text, pack_str(text).len() as int)),
{
    reveal(pack_str);
    reveal(parse_str);
    let body = encode_utf8(text);
    let n = body.len();
    let s = pack_str(text) + rest;
    lemma_str_header_parses(n, body + rest);
    let h = str_header(n).len();
    assert(s.subrange(h as int, (h + n) as int) =~= body);
    encode_utf8_valid_utf8(text);
    encode_utf8_decode_utf8(text);
}

proof fn lemma_str_sound(s: Seq<u8>)
    requires
        parse_str(s) is Some,
    ensures
        ({
            let (text, n) = parse_str(s)->0;
            &&& text_fits(text)
            &&& 1 <= n <= s.len()
            &&& s.take(n as int) == pack_str(text)
        }),
{
    reveal(pack_str);
    reveal(parse_str);
    let (len, h) = parse_str_header(s)->0;
    lemma_str_header_sound(s);
    let body = s.subrange(h as int, (h + len) as int);
    decode_utf8_encode_utf8(body);
}

#[verifier::opaque]
spec fn parse_pair(s: Seq<u8>) -> Option<((Seq<char>, Seq<char>), int)> {
    match parse_str(s) {
        Some((key, n1)) => match parse_str(s.skip(n1 as int)) {
            Some((text, n2)) => Some(((key, text), n1 + n2)),
            None => None,
        },
        None => None,
    }
}

proof fn lemma_pair_parses(key: Seq<char>, text: Seq<char>, rest: Seq<u8>)
    requires
        text_fits(key),
        text_fits(text),
    ensures
        parse_pair(pack_pair(key, text) + rest) == Some(((key, text), pack_pair(key, text).len() as int)),
{
    reveal(parse_pair);
    let s = pack_pair(key, text) + rest;
    lemma_str_parses(key, pack_str(text) + rest);
    assert(s =~= pack_str(key) + (pack_str(text) + rest));
    lemma_str_parses(text, rest);
    assert(s.skip(pack_str(key).len() as int) =~= pack_str(text) + rest);
}

proof fn lemma_pair_sound(s: Seq<u8>)
    requires
        parse_pair(s) is Some,
    ensures
        ({
            let ((key, text), n) = parse_pair(s)->0;
            &&& text_fits(key)
            &&& text_fits(text)
            &&& 2 <= n <= s.len()
            &&& s.take(n as int) == pack_pair(key, text)
        }),
{
    reveal(parse_pair);
    lemma_str_sound(s);
    let (key, n1) = parse_str(s)->0;
    lemma_str_sound(s.skip(n1 as int));
}

/// The kind of mod that the two keys of a map name, with the texts that
/// stand under them.
spec fn shape(k1: Seq<char>, v1: Seq<char>, k2: Seq<char>, v2: Seq<char>) -> Option<ModView> {
    if k1 == "id"@ && k2 == "version"@ {
        Some(ModView::ModDbMod { id: v1, version: v2 })
    } else if k1 == "name"@ && k2 == "source"@ {
        Some(ModView::OtherMod { name: v1, source: v2 })
    } else {
        None
    }
}

#[verifier::opaque]
spec fn parse_mod(s: Seq<u8>) -> Option<(ModView, int)> {
    if s.len() >= 1 && s[0] == 0x82 {
        match parse_pair(s.skip(1)) {
            Some(((k1, v1), n1)) => match parse_pair(s.skip(1 + n1)) {
                Some(((k2, v2), n2)) => match shape(k1, v1, k2, v2) {
                    Some(entry) => Some((entry, 1 + n1 + n2)),
                    None => None,
                },
                None => None,
            },
            None => None,
        }
    } else {
        None
    }
}

proof fn lemma_encoding_is_short(text: Seq<char>)
    ensures
        encode_utf8(text).len() <= 4 * text.len(),
    decreases text.len(),
{
    if text.len() > 0 {
        lemma_encoding_is_short(text.drop_first());
    }
}

proof fn lemma_keys()
    ensures
        text_fits("id"@),
        text_fits("version"@),
        text_fits("name"@),
        text_fits("source"@),
        text_fits("mods"@),
        "id"@ != "name"@,
{
    reveal_strlit("id");
    reveal_strlit("version");
    reveal_strlit("name");
    reveal_strlit("source");
    reveal_strlit("mods");
    lemma_encoding_is_short("id"@);
    lemma_encoding_is_short("version"@);
    lemma_encoding_is_short("name"@);
    lemma_encoding_is_short("source"@);
    lemma_encoding_is_short("mods"@);
}

proof fn lemma_mod_parses(entry: ModView, rest: Seq<u8>)
    requires
        mod_fits(entry),
    ensures
        parse_mod(pack_mod(entry) + rest) == Some((entry, pack_mod(entry).len() as int)),
        pack_mod(entry).len() >= 1,
{
    reveal(pack_mod);
    reveal(parse_mod);
    lemma_keys();
    let s = pack_mod(entry) + rest;
    match entry {
        ModView::ModDbMod { id, version } => {
            let first = pack_pair("id"@, id);
            let second = pack_pair("version"@, version);
            lemma_pair_parses("id"@, id, second + rest);
            assert(s.skip(1) =~= first + (second + rest));
            lemma_pair_parses("version"@, version, rest);
            assert(s.skip(1 + first.len() as int) =~= second + rest);
        },
        ModView::OtherMod { name, source } => {
            let first = pack_pair("name"@, name);
            let second = pack_pair("source"@, source);
            lemma_pair_parses("name"@, name, second + rest);
            assert(s.skip(1) =~= first + (second + rest));
            lemma_pair_parses("source"@, source, rest);
            assert(s.skip(1 + first.len() as int) =~= second + rest);
        },
    }
}

proof fn lemma_mod_sound(s: Seq<u8>)
    requires
        parse_mod(s) is Some,
    ensures
        ({
            let (entry, n) = parse_mod(s)->0;
            &&& mod_fits(entry)
            &&& 1 <= n <= s.len()
            &&& s.take(n as int) == pack_mod(entry)
        }),
{
    reveal(pack_mod);
    reveal(parse_mod);
    let first = s.skip(1);
    lemma_pair_sound(first);
    let ((k1, v1), n1) = parse_pair(first)->0;
    lemma_pair_sound(s.skip(1 + n1));
}

spec fn parse_mods(s: Seq<u8>, count: nat) -> Option<(Seq<ModView>, int)>
    decreases count,
{
    if count == 0 {
        Some((Seq::empty(), 0int))
    } else {
        match parse_mod(s) {
            Some((entry, n)) => match parse_mods(s.skip(n as int), (count - 1) as nat) {
                Some((others, m)) => Some((seq![entry] + others, n + m)),
                None => None,
            },
            None => None,
        }
    }
}

proof fn lemma_mods_parse(mods: Seq<ModView>, rest: Seq<u8>)
    requires
        forall|i: int| 0 <= i < mods.len() ==> mod_fits(#[trigger] mods[i]),
    ensures
        parse_mods(pack_mods(mods) + rest, mods.len()) == Some((mods, pack_mods(mods).len() as int)),
    decreases mods.len(),
{
    if mods.len() > 0 {
        let s = pack_mods(mods) + rest;
        let first = pack_mod(mods[0]);
        let others = mods.drop_first();
        lemma_mod_parses(mods[0], pack_mods(others) + rest);
        assert(s =~= first + (pack_mods(others) + rest));
        assert forall|i: int| 0 <= i < others.len() implies mod_fits(#[trigger] others[i]) by {
            assert(others[i] == mods[i + 1]);
        }
        lemma_mods_parse(others, rest);
        assert(s.skip(first.len() as int) =~= pack_mods(others) + rest);
    }
}

proof fn lemma_mods_sound(s: Seq<u8>, count: nat)
    requires
        parse_mods(s, count) is Some,
    ensures
        ({
            let (mods, n) = parse_mods(s, count)->0;
            &&& mods.len() == count
            &&& forall|i: int| 0 <= i < mods.len() ==> mod_fits(#[trigger] mods[i])
            &&& 0 <= n <= s.len()
            &&& s.take(n as int) == pack_mods(mods)
        }),
    decreases count,
{
    if count > 0 {
        let (mods, total) = parse_mods(s, count)->0;
        lemma_mod_sound(s);
        let (entry, n) = parse_mod(s)->0;
        let after = s.skip(n as int);
        lemma_mods_sound(after, (count - 1) as nat);
        let (others, m) = parse_mods(after, (count - 1) as nat)->0;
        assert(mods.drop_first() =~= others);
    }
}

spec fn parse_file(s: Seq<u8>) -> Option<PackView> {
    if s.len() >= 1 && s[0] == 0x82 {
        match parse_pair(s.skip(1)) {
            Some(((k1, name), n1)) => match parse_str(s.skip(1 + n1)) {
                Some((k2, n2)) => match parse_array_header(s.skip(1 + n1 + n2)) {
                    Some((count, h)) => match parse_mods(s.skip(1 + n1 + n2 + h), count) {
                        Some((mods, n3)) => if k1 == "name"@ && k2 == "mods"@ && 1 + n1 + n2 + h
                            + n3 == s.len() {
                            Some(PackView { name, mods })
                        } else {
                            None
                        },
                        None => None,
                    },
                    None => None,
                },
                None => None,
            },
            None => None,
        }
    } else {
        None
    }
}

proof fn lemma_file_parses(file: PackView)
    requires
        fits(file),
    ensures
        parse_file(pack_file(file)) == Some(file),
{
    lemma_keys();
    let s = pack_file(file);
    let a = pack_pair("name"@, file.name);
    let b = pack_str("mods"@);
    let c = array_header(file.mods.len());
    let d = pack_mods(file.mods);
    lemma_pair_parses("name"@, file.name, b + c + d);
    assert(s.skip(1) =~= a + (b + c + d));
    lemma_str_parses("mods"@, c + d);
    assert(s.skip(1 + a.len() as int) =~= b + (c + d));
    lemma_array_header_parses(file.mods.len(), d);
    lemma_mods_parse(file.mods, Seq::empty());
    assert(s.skip(1 + a.len() + b.len() + c.len() as int) =~= d + Seq::<u8>::empty());
}

proof fn lemma_file_sound(s: Seq<u8>)
    requires
        parse_file(s) is Some,
    ensures
        fits(parse_file(s)->0),
        pack_file(parse_file(s)->0) == s,
{
    let first = s.skip(1);
    lemma_pair_sound(first);
    let ((k1, name), n1) = parse_pair(first)->0;
    let second = s.skip(1 + n1);
    lemma_str_sound(second);
    let (k2, n2) = parse_str(second)->0;
    let third = s.skip(1 + n1 + n2);
    lemma_array_header_sound(third);
    let (count, h) = parse_array_header(third)->0;
    lemma_mods_sound(s.skip(1 + n1 + n2 + h), count);
}

proof fn lemma_unpacked_is_parsed(bytes: Seq<u8>)
    ensures
        unpacked(bytes) == parse_file(bytes),
{
    if parse_file(bytes) is Some {
        lemma_file_sound(bytes);
        let chosen = choose|file: PackView| fits(file) && #[trigger] pack_file(file) == bytes;
        lemma_file_parses(chosen);
    } else {
        if exists|file: PackView| fits(file) && #[trigger] pack_file(file) == bytes {
            let chosen = choose|file: PackView| fits(file) && #[trigger] pack_file(file) == bytes;
            lemma_file_parses(chosen);
        }
    }
}

/// What was packed is what unpacking finds: the layout loses nothing of a
/// modpack, neither its name nor a mod nor the order of the mods.
pub proof fn lemma_unpack_pack(file: PackView)
    requires
        fits(file),
    ensures
        unpacked(pack_file(file)) == Some(file),
{
    lemma_file_parses(file);
    lemma_unpacked_is_parsed(pack_file(file));
}

/// Two modpacks with the same bytes are the same modpack.
pub proof fn lemma_pack_is_injective(a: PackView, b: PackView)
    requires
        fits(a),
        fits(b),
        pack_file(a) == pack_file(b),
    ensures
        a == b,
{
    lemma_file_parses(a);
    lemma_file_parses(b);
}

/// Bytes that unpack are the layout of the modpack found, and of no other.
pub proof fn lemma_unpacked_is_packed(bytes: Seq<u8>)
    ensures
        unpacked(bytes) matches Some(file) ==> fits(file) && pack_file(file) == bytes,
        unpacked(bytes) is None ==> forall|file: PackView|
            fits(file) ==> #[trigger] pack_file(file) != bytes,
{
}

// ---------------------------------------------------------------------
// Writing.
// ---------------------------------------------------------------------

/// Writes `bytes` behind what `out` holds.
fn push_all(out: &mut Vec<u8>, bytes: &[u8])
    ensures
        final(out)@ == old(out)@ + bytes@,
{
    let mut i: usize = 0;
    while i < bytes.len()
        invariant
            i <= bytes@.len(),
            out@ == old(out)@ + bytes@.take(i as int),
        decreases bytes@.len() - i,
    {
        out.push(bytes[i]);
        i += 1;
    }
}

/// Writes a tag and the number `n` in two bytes.
fn write_tag16(out: &mut Vec<u8>, tag: u8, n: usize)
    requires
        n < 65536,
    ensures
        final(out)@ == old(out)@ + (seq![tag] + bytes16(n as nat)),
{
    out.push(tag);
    out.push((n / 256) as u8);
    out.push((n % 256) as u8);
}

/// Writes a tag and the number `n` in four bytes.
fn write_tag32(out: &mut Vec<u8>, tag: u8, n: usize)
    requires
        n <= max_len(),
    ensures
        final(out)@ == old(out)@ + (seq![tag] + bytes32(n as nat)),
{
    out.push(tag);
    out.push((n / 16777216) as u8);
    out.push(((n / 65536) % 256) as u8);
    out.push(((n / 256) % 256) as u8);
    out.push((n % 256) as u8);
}

/// Writes a text, unless it is too long for the layout.
fn write_str(out: &mut Vec<u8>, text: &str) -> (written: bool)
    ensures
        written == text_fits(text@),
        written ==> final(out)@ == old(out)@ + pack_str(text@),
{
    reveal(pack_str);
    let bytes = text.as_bytes();
    let n: usize = bytes.len();
    if n > 0xffff_ffff {
        return false;
    }
    if n < 32 {
        out.push(0xa0 + n as u8);
    } else if n < 256 {
        out.push(0xd9);
        out.push(n as u8);
    } else if n < 65536 {
        write_tag16(out, 0xda, n);
    } else {
        write_tag32(out, 0xdb, n);
    }
    push_all(out, bytes);
    true
}

/// Writes what stands before a list of `n` items.
fn write_array_header(out: &mut Vec<u8>, n: usize)
    requires
        n <= max_len(),
    ensures
        final(out)@ == old(out)@ + array_header(n as nat),
{
    if n < 16 {
        out.push(0x90 + n as u8);
    } else if n < 65536 {
        write_tag16(out, 0xdc, n);
    } else {
        write_tag32(out, 0xdd, n);
    }
}

/// Writes a key and the text under it, unless one of them is too long.
fn write_pair(out: &mut Vec<u8>, key: &str, text: &str) -> (written: bool)
    ensures
        written == (text_fits(key@) && text_fits(text@)),
        written ==> final(out)@ == old(out)@ + pack_pair(key@, text@),
{
    if !write_str(out, key) {
        return false;
    }
    if !write_str(out, text) {
        return false;
    }
    true
}

/// Writes a mod, unless one of its texts is too long.
fn write_mod(out: &mut Vec<u8>, entry: &KilnMod) -> (written: bool)
    ensures
        written == mod_fits(entry@),
        written ==> final(out)@ == old(out)@ + pack_mod(entry@),
{
    reveal(pack_mod);
    proof {
        lemma_keys();
    }
    out.push(0x82);
    match entry {
        KilnMod::ModDbMod { id, version } => {
            if !write_pair(out, "id", id.as_str()) {
                return false;
            }
            if !write_pair(out, "version", version.as_str()) {
                return false;
            }
        },
        KilnMod::OtherMod { name, source } => {
            if !write_pair(out, "name", name.as_str()) {
                return false;
            }
            if !write_pair(out, "source", source.as_str()) {
                return false;
            }
        },
    }
    true
}

proof fn lemma_pack_mods_push(mods: Seq<ModView>, entry: ModView)
    ensures
        pack_mods(mods.push(entry)) == pack_mods(mods) + pack_mod(entry),
    decreases mods.len(),
{
    let longer = mods.push(entry);
    if mods.len() == 0 {
        assert(longer.drop_first() =~= mods);
    } else {
        let others = mods.drop_first();
        lemma_pack_mods_push(others, entry);
        assert(longer.drop_first() =~= others.push(entry));
    }
}

/// The bytes of the modpack of that name and with those mods in the layout,
/// or nothing where the layout cannot record it.
pub fn pack_parts(name: &str, mods: &Vec<KilnMod>) -> (bytes: Option<Vec<u8>>)
    ensures
        bytes is Some <==> fits(PackView { name: name@, mods: mod_views(mods@) }),
        bytes matches Some(written) ==> written@ == pack_file(
            PackView { name: name@, mods: mod_views(mods@) },
        ),
{
    proof {
        lemma_keys();
    }
    let ghost views = mod_views(mods@);
    let mut out: Vec<u8> = Vec::new();
    out.push(0x82);
    if !write_pair(&mut out, "name", name) {
        return None;
    }
    if !write_str(&mut out, "mods") {
        return None;
    }
    let count: usize = mods.len();
    if count > 0xffff_ffff {
        return None;
    }
    write_array_header(&mut out, count);
    let ghost head = out@;
    let mut i: usize = 0;
    while i < count
        invariant
            i <= count,
            count == mods@.len(),
            views == mod_views(mods@),
            out@ == head + pack_mods(views.take(i as int)),
            forall|k: int| 0 <= k < i ==> mod_fits(#[trigger] views[k]),
        decreases count - i,
    {
        let ghost done = views.take(i as int);
        if !write_mod(&mut out, &mods[i]) {
            return None;
        }
        proof {
            lemma_pack_mods_push(done, views[i as int]);
            assert(views.take(i + 1) =~= done.push(views[i as int]));
        }
        i += 1;
    }
    assert(views.take(i as int) =~= views);
    Some(out)
}

/// The bytes of a modpack in the layout, or nothing where the layout cannot
/// record it.
pub fn pack(file: &KilnFile) -> (bytes: Option<Vec<u8>>)
    ensures
        bytes is Some <==> fits(file@),
        bytes matches Some(written) ==> written@ == pack_file(file@),
{
    pack_parts(file.name.as_str(), &file.mods)
}

// ---------------------------------------------------------------------
// Reading.
// ---------------------------------------------------------------------

/// The number that the two bytes at `at` spell.
fn read16(buf: &[u8], at: usize) -> (n: usize)
    requires
        at + 2 <= buf@.len(),
    ensures
        n == be16(buf@[at as int], buf@[at + 1]),
{
    let n: u32 = (buf[at] as u32) * 256 + (buf[at + 1] as u32);
    n as usize
}

/// The number that the four bytes at `at` spell.
fn read32(buf: &[u8], at: usize) -> (n: usize)
    requires
        at + 4 <= buf@.len(),
    ensures
        n == be32(buf@[at as int], buf@[at + 1], buf@[at + 2], buf@[at + 3]),
{
    let n: u32 = (buf[at] as u32) * 16777216 + (buf[at + 1] as u32) * 65536 + (buf[at + 2] as u32)
        * 256 + (buf[at + 3] as u32);
    n as usize
}

/// Reads what stands before a text: its length, and where it begins.
fn read_str_header(buf: &[u8], pos: usize) -> (header: Option<(usize, usize)>)
    requires
        pos <= buf@.len(),
    ensures
        (match parse_str_header(buf@.skip(pos as int)) {
            Some((n, h)) => header == Some((n as usize, (pos + h) as usize)) && pos + h
                <= buf@.len(),
            None => header is None,
        }),
{
    let total: usize = buf.len();
    if pos >= total {
        return None;
    }
    let left: usize = total - pos;
    let tag: u8 = buf[pos];
    if 0xa0 <= tag && tag < 0xc0 {
        Some(((tag - 0xa0) as usize, pos + 1))
    } else if tag == 0xd9 {
        if left >= 2 && buf[pos + 1] >= 32 {
            Some((buf[pos + 1] as usize, pos + 2))
        } else {
            None
        }
    } else if tag == 0xda {
        if left >= 3 {
            let n: usize = read16(buf, pos + 1);
            if n >= 256 {
                Some((n, pos + 3))
            } else {
                None
            }
        } else {
            None
        }
    } else if tag == 0xdb {
        if left >= 5 {
            let n: usize = read32(buf, pos + 1);
            if n >= 65536 {
                Some((n, pos + 5))
            } else {
                None
            }
        } else {
            None
        }
    } else {
        None
    }
}

/// Reads what stands before a list: the number of its items, and where the
/// first begins.
fn read_array_header(buf: &[u8], pos: usize) -> (header: Option<(usize, usize)>)
    requires
        pos <= buf@.len(),
    ensures
        (match parse_array_header(buf@.skip(pos as int)) {
            Some((n, h)) => header == Some((n as usize, (pos + h) as usize)) && pos + h
                <= buf@.len(),
            None => header is None,
        }),
{
    let total: usize = buf.len();
    if pos >= total {
        return None;
    }
    let left: usize = total - pos;
    let tag: u8 = buf[pos];
    if 0x90 <= tag && tag < 0xa0 {
        Some(((tag - 0x90) as usize, pos + 1))
    } else if tag == 0xdc {
        if left >= 3 {
            let n: usize = read16(buf, pos + 1);
            if n >= 16 {
                Some((n, pos + 3))
            } else {
                None
            }
        } else {
            None
        }
    } else if tag == 0xdd {
        if left >= 5 {
            let n: usize = read32(buf, pos + 1);
            if n >= 65536 {
                Some((n, pos + 5))
            } else {
                None
            }
        } else {
            None
        }
    } else {
        None
    }
}

/// Reads a text, and says where the next item begins.
fn read_str(buf: &[u8], pos: usize) -> (read: Option<(String, usize)>)
    requires
        pos <= buf@.len(),
    ensures
        (match parse_str(buf@.skip(pos as int)) {
            Some((text, n)) => read matches Some((found, next)) && found@ == text && next == pos
                + n && next <= buf@.len(),
            None => read is None,
        }),
{
    reveal(parse_str);
    let ghost s = buf@.skip(pos as int);
    match read_str_header(buf, pos) {
        None => None,
        Some((n, start)) => {
            if n > buf.len() - start {
                return None;
            }
            let body = slice_subrange(buf, start, start + n);
            assert(body@ =~= s.subrange(start - pos, start - pos + n));
            match crate::text::text_from_utf8(slice_to_vec(body)) {
                Some(found) => Some((found, start + n)),
                None => None,
            }
        },
    }
}

/// Reads a key and the text under it, and says where the next item begins.
fn read_pair(buf: &[u8], pos: usize) -> (read: Option<(String, String, usize)>)
    requires
        pos <= buf@.len(),
    ensures
        (match parse_pair(buf@.skip(pos as int)) {
            Some(((key, text), n)) => read matches Some((found_key, found_text, next))
                && found_key@ == key && found_text@ == text && next == pos + n && next
                <= buf@.len(),
            None => read is None,
        }),
{
    reveal(parse_pair);
    let ghost s = buf@.skip(pos as int);
    match read_str(buf, pos) {
        None => None,
        Some((key, middle)) => {
            proof {
                lemma_str_sound(s);
            }
            assert(buf@.skip(middle as int) =~= s.skip(middle - pos));
            match read_str(buf, middle) {
                None => None,
                Some((text, next)) => Some((key, text, next)),
            }
        },
    }
}

/// Reads a mod, and says where the next item begins.
fn read_mod(buf: &[u8], pos: usize) -> (read: Option<(KilnMod, usize)>)
    requires
        pos <= buf@.len(),
    ensures
        (match parse_mod(buf@.skip(pos as int)) {
            Some((entry, n)) => read matches Some((found, next)) && found@ == entry && next
                == pos + n && next <= buf@.len(),
            None => read is None,
        }),
{
    reveal(parse_mod);
    let ghost s = buf@.skip(pos as int);
    if pos >= buf.len() || buf[pos] != 0x82 {
        return None;
    }
    assert(buf@.skip(pos + 1) =~= s.skip(1));
    match read_pair(buf, pos + 1) {
        None => None,
        Some((k1, v1, middle)) => {
            proof {
                lemma_pair_sound(s.skip(1));
            }
            assert(buf@.skip(middle as int) =~= s.skip(middle - pos));
            match read_pair(buf, middle) {
                None => None,
                Some((k2, v2, next)) => {
                    if str_eq(k1.as_str(), "id") && str_eq(k2.as_str(), "version") {
                        Some((KilnMod::ModDbMod { id: v1, version: v2 }, next))
                    } else if str_eq(k1.as_str(), "name") && str_eq(k2.as_str(), "source") {
                        Some((KilnMod::OtherMod { name: v1, source: v2 }, next))
                    } else {
                        None
                    }
                },
            }
        },
    }
}

/// Reads `count` mods, and says where the next item begins.
fn read_mods(buf: &[u8], pos: usize, count: usize) -> (read: Option<(Vec<KilnMod>, usize)>)
    requires
        pos <= buf@.len(),
    ensures
        (match parse_mods(buf@.skip(pos as int), count as nat) {
            Some((mods, n)) => read matches Some((found, next)) && mod_views(found@) == mods
                && next == pos + n && next <= buf@.len(),
            None => read is None,
        }),
{
    let ghost whole = parse_mods(buf@.skip(pos as int), count as nat);
    let mut found: Vec<KilnMod> = Vec::new();
    let mut at: usize = pos;
    let mut i: usize = 0;
    while i < count
        invariant
            i <= count,
            pos <= at <= buf@.len(),
            whole == parse_mods(buf@.skip(pos as int), count as nat),
            match parse_mods(buf@.skip(at as int), (count - i) as nat) {
                Some((others, n)) => whole == Some((mod_views(found@) + others, at - pos + n)),
                None => whole is None,
            },
        decreases count - i,
    {
        let ghost s = buf@.skip(at as int);
        match read_mod(buf, at) {
            None => {
                return None;
            },
            Some((entry, next)) => {
                proof {
                    lemma_mod_sound(s);
                    assert(buf@.skip(next as int) =~= s.skip(next - at));
                }
                found.push(entry);
                at = next;
            },
        }
        i += 1;
    }
    proof {
        lemma_mods_sound(buf@.skip(pos as int), count as nat);
    }
    Some((found, at))
}

/// The modpack that the bytes are the layout of, or nothing where they are
/// the layout of none: bytes left over, a key that is not expected, a length
/// written the long way, or text that is not UTF-8 all make them so.
pub fn unpack(bytes: &[u8]) -> (file: Option<KilnFile>)
    ensures
        (match unpacked(bytes@) {
            Some(wanted) => file matches Some(found) && found@ == wanted,
            None => file is None,
        }),
{
    proof {
        lemma_unpacked_is_parsed(bytes@);
    }
    if bytes.len() < 1 || bytes[0] != 0x82 {
        return None;
    }
    let (k1, name, second) = match read_pair(bytes, 1) {
        Some(read) => read,
        None => {
            return None;
        },
    };
    let (k2, third) = match read_str(bytes, second) {
        Some(read) => read,
        None => {
            return None;
        },
    };
    let (count, fourth) = match read_array_header(bytes, third) {
        Some(read) => read,
        None => {
            return None;
        },
    };
    let (mods, end) = match read_mods(bytes, fourth, count) {
        Some(read) => read,
        None => {
            return None;
        },
    };
    if str_eq(k1.as_str(), "name") && str_eq(k2.as_str(), "mods") && end == bytes.len() {
        Some(KilnFile { name, mods })
    } else {
        None
    }
}

} // verus!
