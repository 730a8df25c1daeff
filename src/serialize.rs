use vstd::prelude::*;
use vstd::string::StringSliceAdditionalSpecFns;
pub use crate::calendar::{
    date_to_epoch_ms, epoch_ms_to_date, epoch_ms_to_weekday, is_leap_year, next_day, prev_day,
};
use vstd::utf8::{decode_utf8, encode_utf8, encode_utf8_decode_utf8, encode_utf8_valid_utf8, valid_utf8};

verus! {

/// Editor settings that are saved between sessions.
#[derive(Clone, Copy, Debug, PartialEq, Eq, Structural)]
pub struct WriterConfig {
    /// Mode opened at start: 0 editor, 1 journal, 2 typewriter.
    pub default_mode: u8,
    pub autosave: bool,
    pub show_line_numbers: bool,
}

impl WriterConfig {
    /// Editor mode, autosave on, line numbers off.
    pub fn default() -> (r: WriterConfig)
        ensures
            r == (WriterConfig { default_mode: 0, autosave: true, show_line_numbers: false }),
    {
        WriterConfig { default_mode: 0, autosave: true, show_line_numbers: false }
    }
}

/// What `String::from_utf8_lossy` makes of `b`.
pub uninterp spec fn lossy_text(b: Seq<u8>) -> Seq<char>;

/// Relies on `String::from_utf8_lossy`: valid UTF-8 is decoded as it is; other bytes are
/// replaced, never rejected.
#[verifier::external_body]
fn text_from_bytes(b: &[u8]) -> (r: String)
    ensures
        r@ == lossy_text(b@),
        valid_utf8(b@) ==> r@ == decode_utf8(b@),
{
    String::from_utf8_lossy(b).into_owned()
}

/// The text that bytes read as: decoded where they are valid UTF-8, else what the lossy
/// decoding makes of them.
pub open spec fn bytes_text(b: Seq<u8>) -> Seq<char> {
    if valid_utf8(b) {
        decode_utf8(b)
    } else {
        lossy_text(b)
    }
}

fn read_text(b: &[u8]) -> (r: String)
    ensures
        r@ == bytes_text(b@),
{
    text_from_bytes(b)
}

/// Two bytes, little-endian, of `n` (below 65536).
pub open spec fn le16(n: int) -> Seq<u8> {
    seq![(n % 256) as u8, (n / 256) as u8]
}

/// Four bytes, little-endian, of `n` (below 2^32).
pub open spec fn le32(n: int) -> Seq<u8> {
    seq![
        (n % 256) as u8,
        (n / 256 % 256) as u8,
        (n / 65536 % 256) as u8,
        (n / 16777216) as u8,
    ]
}

/// The little-endian `u16` at `b[o..o + 2]`.
pub open spec fn read16(b: Seq<u8>, o: int) -> int {
    b[o] as int + 256 * b[o + 1] as int
}

/// The little-endian `u32` at `b[o..o + 4]`.
pub open spec fn read32(b: Seq<u8>, o: int) -> int {
    b[o] as int + 256 * b[o + 1] as int + 65536 * b[o + 2] as int + 16777216 * b[o + 3] as int
}

/// A document record: the title's byte length as a `u16` (taken modulo 2^16), the title's
/// bytes, then the content's bytes to the end.
pub open spec fn document_bytes(title: Seq<char>, content: Seq<char>) -> Seq<u8> {
    let t = encode_utf8(title);
    le16(t.len() as int % 65536) + t + encode_utf8(content)
}

fn push_all(v: &mut Vec<u8>, b: &[u8])
    ensures
        final(v)@ == old(v)@ + b@,
{
    let ghost start = v@;
    let mut i: usize = 0;
    while i < b.len()
        invariant
            i <= b@.len(),
            v@ == start + b@.subrange(0, i as int),
        decreases b@.len() - i,
    {
        v.push(b[i]);
        i = i + 1;
        assert(v@ =~= start + b@.subrange(0, i as int));
    }
    assert(b@.subrange(0, i as int) =~= b@);
}

fn push_u16(v: &mut Vec<u8>, n: usize)
    ensures
        final(v)@ == old(v)@ + le16(n as int % 65536),
{
    let m = n % 65536;
    v.push((m % 256) as u8);
    v.push((m / 256) as u8);
    assert(final(v)@ =~= old(v)@ + le16(n as int % 65536));
}

/// Encodes a document record.
pub fn serialize_document(title: &str, content: &str) -> (r: Vec<u8>)
    ensures
        r@ == document_bytes(title@, content@),
{
    let title_bytes = title.as_bytes();
    let content_bytes = content.as_bytes();
    let mut data: Vec<u8> = Vec::new();
    push_u16(&mut data, title_bytes.len());
    push_all(&mut data, title_bytes);
    push_all(&mut data, content_bytes);
    assert(data@ =~= document_bytes(title@, content@));
    data
}

/// The title and content of a document record; `None` where there are fewer than two
/// bytes or fewer than the title length says.
pub open spec fn document_of(b: Seq<u8>) -> Option<(Seq<char>, Seq<char>)> {
    if b.len() < 2 || b.len() < 2 + read16(b, 0) {
        None
    } else {
        let n = read16(b, 0);
        Some((bytes_text(b.subrange(2, 2 + n)), bytes_text(b.subrange(2 + n, b.len() as int))))
    }
}

/// Decodes a document record into its title and content.
///
/// `None` where there are fewer than two bytes or fewer than the title length says.
pub fn deserialize_document(bytes: &[u8]) -> (r: Option<(String, String)>)
    ensures
        match r {
            Some((t, c)) => document_of(bytes@) == Some((t@, c@)),
            None => document_of(bytes@) is None,
        },
{
    if bytes.len() < 2 {
        return None;
    }
    let title_len = bytes[0] as usize + 256 * bytes[1] as usize;
    if bytes.len() - 2 < title_len {
        return None;
    }
    let title = read_text(&bytes[2..2 + title_len]);
    let content = read_text(&bytes[2 + title_len..bytes.len()]);
    Some((title, content))
}

/// Encodes settings as three bytes: mode, autosave flag, line-number flag.
pub fn serialize_config(config: &WriterConfig) -> (r: Vec<u8>)
    ensures
        r@ == seq![
            config.default_mode,
            if config.autosave { 1u8 } else { 0u8 },
            if config.show_line_numbers { 1u8 } else { 0u8 },
        ],
{
    let mut data: Vec<u8> = Vec::new();
    data.push(config.default_mode);
    data.push(if config.autosave { 1u8 } else { 0u8 });
    data.push(if config.show_line_numbers { 1u8 } else { 0u8 });
    assert(data@ =~= seq![
        config.default_mode,
        if config.autosave { 1u8 } else { 0u8 },
        if config.show_line_numbers { 1u8 } else { 0u8 },
    ]);
    data
}

/// Decodes settings; `None` where fewer than three bytes are given. A flag byte other than
/// zero reads as on.
pub fn deserialize_config(bytes: &[u8]) -> (r: Option<WriterConfig>)
    ensures
        bytes@.len() < 3 ==> r is None,
        bytes@.len() >= 3 ==> r == Some(
            WriterConfig {
                default_mode: bytes@[0],
                autosave: bytes@[1] != 0,
                show_line_numbers: bytes@[2] != 0,
            },
        ),
{
    if bytes.len() < 3 {
        return None;
    }
    Some(
        WriterConfig {
            default_mode: bytes[0],
            autosave: bytes[1] != 0,
            show_line_numbers: bytes[2] != 0,
        },
    )
}


/// The texts held by a sequence of strings.
pub open spec fn texts(v: Seq<String>) -> Seq<Seq<char>> {
    v.map_values(|s: String| s@)
}

/// One index record: the name's byte length as a `u16` (modulo 2^16), then its bytes.
pub open spec fn name_record(name: Seq<char>) -> Seq<u8> {
    let b = encode_utf8(name);
    le16(b.len() as int % 65536) + b
}

/// The records of `names`, one after another.
pub open spec fn name_records(names: Seq<Seq<char>>) -> Seq<u8>
    decreases names.len(),
{
    if names.len() == 0 {
        Seq::empty()
    } else {
        name_record(names[0]) + name_records(names.drop_first())
    }
}

/// A name index: the count as a `u32` (modulo 2^32), then one record per name.
pub open spec fn index_bytes(names: Seq<Seq<char>>) -> Seq<u8> {
    le32(names.len() as int % 4294967296) + name_records(names)
}

/// Up to `k` names read from the records that start at `b[off]`, stopping at the first
/// record that does not fit.
pub open spec fn read_names(b: Seq<u8>, off: int, k: nat) -> Seq<Seq<char>>
    decreases k,
{
    if k == 0 || off + 2 > b.len() {
        Seq::empty()
    } else {
        let n = read16(b, off);
        if off + 2 + n > b.len() {
            Seq::empty()
        } else {
            seq![bytes_text(b.subrange(off + 2, off + 2 + n))] + read_names(
                b,
                off + 2 + n,
                (k - 1) as nat,
            )
        }
    }
}

/// The names of an index: none where fewer than four bytes are given, else as many of the
/// counted records as fit.
pub open spec fn index_names(b: Seq<u8>) -> Seq<Seq<char>> {
    if b.len() < 4 {
        Seq::empty()
    } else {
        read_names(b, 4, read32(b, 0) as nat)
    }
}

pub proof fn lemma_name_records_push(names: Seq<Seq<char>>, x: Seq<char>)
    ensures
        name_records(names.push(x)) == name_records(names) + name_record(x),
    decreases names.len(),
{
    if names.len() == 0 {
        assert(names.push(x).drop_first() =~= Seq::<Seq<char>>::empty());
        assert(name_records(names.push(x).drop_first()) == Seq::<u8>::empty());
        assert(name_records(names) == Seq::<u8>::empty());
        assert(name_records(names.push(x)) =~= name_records(names) + name_record(x));
    } else {
        assert(names.push(x).drop_first() =~= names.drop_first().push(x));
        lemma_name_records_push(names.drop_first(), x);
        assert(name_records(names.push(x)) =~= name_records(names) + name_record(x));
    }
}

/// Encodes a name index.
pub fn serialize_index(names: &[String]) -> (r: Vec<u8>)
    ensures
        r@ == index_bytes(texts(names@)),
{
    let mut data: Vec<u8> = Vec::new();
    let count: u64 = names.len() as u64 % 4294967296;
    data.push((count % 256) as u8);
    data.push((count / 256 % 256) as u8);
    data.push((count / 65536 % 256) as u8);
    data.push((count / 16777216) as u8);
    assert(data@ =~= le32(names@.len() as int % 4294967296) + name_records(
        texts(names@).subrange(0, 0),
    ));
    let mut i: usize = 0;
    while i < names.len()
        invariant
            i <= names@.len(),
            data@ == le32(names@.len() as int % 4294967296) + name_records(
                texts(names@).subrange(0, i as int),
            ),
        decreases names@.len() - i,
    {
        let name_bytes = names[i].as_str().as_bytes();
        push_u16(&mut data, name_bytes.len());
        push_all(&mut data, name_bytes);
        proof {
            let t = texts(names@);
            assert(t.subrange(0, i + 1) =~= t.subrange(0, i as int).push(names@[i as int]@));
            lemma_name_records_push(t.subrange(0, i as int), names@[i as int]@);
        }
        i = i + 1;
        assert(data@ =~= le32(names@.len() as int % 4294967296) + name_records(
            texts(names@).subrange(0, i as int),
        ));
    }
    assert(texts(names@).subrange(0, i as int) =~= texts(names@));
    data
}

/// Decodes a name index, keeping what was read before a truncated record.
pub fn deserialize_index(bytes: &[u8]) -> (r: Vec<String>)
    ensures
        texts(r@) == index_names(bytes@),
{
    let mut names: Vec<String> = Vec::new();
    if bytes.len() < 4 {
        assert(texts(names@) =~= index_names(bytes@));
        return names;
    }
    let count: u64 = bytes[0] as u64 + 256 * bytes[1] as u64 + 65536 * bytes[2] as u64
        + 16777216 * bytes[3] as u64;
    let mut offset: usize = 4;
    let mut k: u64 = count;
    loop
        invariant
            4 <= offset <= bytes@.len(),
            texts(names@) + read_names(bytes@, offset as int, k as nat) == index_names(bytes@),
        ensures
            texts(names@) == index_names(bytes@),
        decreases k,
    {
        if k == 0 {
            assert(read_names(bytes@, offset as int, k as nat) =~= Seq::<Seq<char>>::empty());
            assert(texts(names@) + Seq::<Seq<char>>::empty() =~= texts(names@));
            break;
        }
        if bytes.len() - offset < 2 {
            assert(read_names(bytes@, offset as int, k as nat) =~= Seq::<Seq<char>>::empty());
            assert(texts(names@) + Seq::<Seq<char>>::empty() =~= texts(names@));
            break;
        }
        let name_len = bytes[offset] as usize + 256 * bytes[offset + 1] as usize;
        let start = offset + 2;
        if bytes.len() - start < name_len {
            assert(texts(names@) + Seq::<Seq<char>>::empty() =~= texts(names@));
            break;
        }
        let name = read_text(&bytes[start..start + name_len]);
        let ghost before = texts(names@);
        names.push(name);
        offset = start + name_len;
        k = k - 1;
        assert(texts(names@) =~= before.push(name@));
        assert(texts(names@) + read_names(bytes@, offset as int, k as nat) =~= before + (seq![
            name@,
        ] + read_names(bytes@, offset as int, k as nat)));
    }
    names
}


/// A document whose title takes fewer than 65536 bytes decodes to the title and content it
/// was encoded from.
pub proof fn lemma_document_round_trip(title: Seq<char>, content: Seq<char>)
    requires
        encode_utf8(title).len() < 65536,
    ensures
        document_of(document_bytes(title, content)) == Some((title, content)),
{
    let t = encode_utf8(title);
    let c = encode_utf8(content);
    let b = document_bytes(title, content);
    let n = t.len() as int;
    assert(read16(b, 0) == n);
    assert(b.subrange(2, 2 + n) =~= t);
    assert(b.subrange(2 + n, b.len() as int) =~= c);
    encode_utf8_valid_utf8(title);
    encode_utf8_valid_utf8(content);
    encode_utf8_decode_utf8(title);
    encode_utf8_decode_utf8(content);
}

/// Every name fits a record: its bytes number fewer than 65536.
pub open spec fn names_fit(names: Seq<Seq<char>>) -> bool {
    forall|i: int| 0 <= i < names.len() ==> #[trigger] encode_utf8(names[i]).len() < 65536
}

proof fn lemma_read_records(p: Seq<u8>, names: Seq<Seq<char>>)
    requires
        names_fit(names),
    ensures
        read_names(p + name_records(names), p.len() as int, names.len()) == names,
    decreases names.len(),
{
    let b = p + name_records(names);
    if names.len() == 0 {
        assert(read_names(b, p.len() as int, 0) =~= names);
    } else {
        let x = names[0];
        let rest = names.drop_first();
        let e = encode_utf8(x);
        let n = e.len() as int;
        let q = p + name_record(x);
        assert(names_fit(rest)) by {
            assert forall|i: int| 0 <= i < rest.len() implies #[trigger] encode_utf8(
                rest[i],
            ).len() < 65536 by {
                assert(rest[i] == names[i + 1]);
            }
        }
        assert(b =~= q + name_records(rest));
        assert(read16(b, p.len() as int) == n);
        assert(b.subrange(p.len() + 2int, p.len() + 2 + n) =~= e);
        encode_utf8_valid_utf8(x);
        encode_utf8_decode_utf8(x);
        lemma_read_records(q, rest);
        assert(q.len() == p.len() + 2 + n);
        assert(read_names(b, p.len() as int, names.len()) =~= seq![x] + rest);
        assert(seq![x] + rest =~= names);
    }
}

/// Fewer than 2^32 names, each of fewer than 65536 bytes, decode from their index to the
/// same names in the same order.
pub proof fn lemma_index_round_trip(names: Seq<Seq<char>>)
    requires
        names.len() < 4294967296,
        names_fit(names),
    ensures
        index_names(index_bytes(names)) == names,
{
    let b = index_bytes(names);
    let h = le32(names.len() as int);
    assert(b =~= h + name_records(names));
    let n = names.len() as int;
    assert(read32(b, 0) == n) by {
        assert(b[0] == (n % 256) as u8);
        assert(b[1] == (n / 256 % 256) as u8);
        assert(b[2] == (n / 65536 % 256) as u8);
        assert(b[3] == (n / 16777216) as u8);
    }
    lemma_read_records(h, names);
}

} // verus!
