//! Archives of named parts, as spreadsheet files are.
use std::io::{Cursor, Read, Write};
use vstd::prelude::*;
use vstd::utf8::{decode_utf8, encode_utf8, valid_utf8};
use zip::write::SimpleFileOptions;
use zip::{CompressionMethod, ZipArchive, ZipWriter};

verus! {

/// `std::io::Cursor`, which an archive is read from.
#[verifier::external_type_specification]
#[verifier::external_body]
#[verifier::reject_recursive_types(T)]
pub struct ExCursor<T>(Cursor<T>);

/// `zip::ZipArchive`, an archive that is open for reading.
#[verifier::external_type_specification]
#[verifier::external_body]
#[verifier::reject_recursive_types(R)]
pub struct ExZipArchive<R>(ZipArchive<R>);

/// `zip::ZipWriter`, an archive that is being written to memory.
#[verifier::external_body]
pub struct Packer {
    inner: ZipWriter<Cursor<Vec<u8>>>,
}

/// The parts that an archive being written holds, in order: names and bytes.
pub uninterp spec fn packed(p: Packer) -> Seq<(Seq<char>, Seq<u8>)>;

/// The parts that an open archive holds, in order: names and bytes, or nothing for a part that
/// cannot be read.
pub uninterp spec fn contents(a: ZipArchive<Cursor<Vec<u8>>>) -> Seq<Option<(Seq<char>, Seq<u8>)>>;

/// The parts of the archive that bytes are; nothing where they are none.
pub uninterp spec fn archive_of(bytes: Seq<u8>) -> Option<Seq<Option<(Seq<char>, Seq<u8>)>>>;

/// What `String::from_utf8_lossy` makes of bytes that are not UTF-8.
pub uninterp spec fn lossy(bytes: Seq<u8>) -> Seq<char>;

/// A name that a part of an archive can have: ASCII without control characters, not empty, not
/// that of a directory.
pub open spec fn is_part_name(name: Seq<char>) -> bool {
    &&& 0 < name.len() <= 0xffff
    &&& name.last() != '/'
    &&& forall|i: int| 0 <= i < name.len() ==> ' ' < #[trigger] name[i] <= '~'
}

/// Parts that were all read.
pub open spec fn all_read(parts: Seq<(Seq<char>, Seq<u8>)>) -> Seq<Option<(Seq<char>, Seq<u8>)>> {
    Seq::new(parts.len(), |i: int| Some(parts[i]))
}

/// Whether a part of a name is among parts.
pub open spec fn has_part(parts: Seq<(Seq<char>, Seq<u8>)>, name: Seq<char>) -> bool {
    exists|i: int| 0 <= i < parts.len() && (#[trigger] parts[i]).0 == name
}

/// `ZipWriter::new`: an archive without parts.
#[verifier::external_body]
pub(crate) fn start_packing() -> (r: Packer)
    ensures
        packed(r) == Seq::<(Seq<char>, Seq<u8>)>::empty(),
{
    Packer { inner: ZipWriter::new(Cursor::new(Vec::new())) }
}

/// What `ZipWriter::start_file` and `write_all` decide of one more part: whether an archive that
/// holds parts takes it.
pub uninterp spec fn takes_part(
    parts: Seq<(Seq<char>, Seq<u8>)>,
    name: Seq<char>,
    data: Seq<u8>,
) -> bool;

/// What `ZipWriter::finish` decides of an archive: whether it can be finished with the parts that
/// it holds.
pub uninterp spec fn can_finish(parts: Seq<(Seq<char>, Seq<u8>)>) -> bool;

/// The most bytes that one part can have.
pub const MOST_BYTES: u64 = 0xffff_ffff;

/// `ZipWriter::start_file`, deflated, with `write_all` of its bytes behind it: where both succeed,
/// the archive has one part more, otherwise it is gone. Whether they succeed depends on the parts
/// that the archive holds and on the new one alone: nothing but memory is written to. They fail on
/// a name that is there already and on more bytes than a part can have. On which other parts they
/// succeed is named, not written out: it rests on how the bytes are deflated and on writing to a
/// `Cursor`.
#[verifier::external_body]
pub(crate) fn pack(p: Packer, name: &str, data: &str) -> (r: Option<Packer>)
    requires
        is_part_name(name@),
    ensures
        r is Some <==> takes_part(packed(p), name@, encode_utf8(data@)),
        r matches Some(q) ==> packed(q) == packed(p).push((name@, encode_utf8(data@))),
        has_part(packed(p), name@) ==> r is None,
        encode_utf8(data@).len() > MOST_BYTES ==> r is None,
{
    let mut p = p;
    let opts = SimpleFileOptions::default().compression_method(CompressionMethod::Deflated);
    p.inner.start_file(name, opts).ok()?;
    p.inner.write_all(data.as_bytes()).ok()?;
    Some(p)
}

/// `ZipWriter::finish`: where it succeeds, the bytes are an archive of the parts, all of which
/// can be read. Whether it succeeds depends on the parts alone. What the bytes are is not said: they
/// hold the time of writing.
#[verifier::external_body]
pub(crate) fn finish_packing(p: Packer) -> (r: Option<Vec<u8>>)
    ensures
        r is Some <==> can_finish(packed(p)),
        r matches Some(bytes) ==> archive_of(bytes@) == Some(all_read(packed(p))),
{
    p.inner.finish().ok().map(|c| c.into_inner())
}

/// `ZipArchive::new`: opens the archive that bytes are.
#[verifier::external_body]
pub(crate) fn open_archive(bytes: &[u8]) -> (r: Option<ZipArchive<Cursor<Vec<u8>>>>)
    ensures
        match r {
            Some(a) => archive_of(bytes@) == Some(contents(a)),
            None => archive_of(bytes@) is None,
        },
{
    ZipArchive::new(Cursor::new(bytes.to_vec())).ok()
}

/// `ZipArchive::len`: how many parts the archive has.
#[verifier::external_body]
pub(crate) fn part_count(a: &ZipArchive<Cursor<Vec<u8>>>) -> (r: usize)
    ensures
        r == contents(*a).len(),
{
    a.len()
}

/// `ZipArchive::by_index` with `read_to_end`: the name and the bytes of a part, nothing where it
/// cannot be read. Parts that are stored and parts that are deflated can be read: `zip` is built
/// without its other codecs and without decryption, and gives an error for a part that needs one.
#[verifier::external_body]
pub(crate) fn read_part(a: &mut ZipArchive<Cursor<Vec<u8>>>, i: usize) -> (r: Option<
    (String, Vec<u8>),
>)
    requires
        i < contents(*old(a)).len(),
    ensures
        contents(*final(a)) == contents(*old(a)),
        match r {
            Some(p) => contents(*old(a))[i as int] == Some((p.0@, p.1@)),
            None => contents(*old(a))[i as int] is None,
        },
{
    let mut file = a.by_index(i).ok()?;
    let name = file.name().to_string();
    let mut data = Vec::new();
    file.read_to_end(&mut data).ok()?;
    Some((name, data))
}

/// `String::from_utf8_lossy`: the text that bytes are in UTF-8. What becomes of other bytes is
/// named, not written out.
#[verifier::external_body]
pub(crate) fn text_of_bytes(bytes: &Vec<u8>) -> (r: String)
    ensures
        r@ == (if valid_utf8(bytes@) {
            decode_utf8(bytes@)
        } else {
            lossy(bytes@)
        }),
{
    String::from_utf8_lossy(bytes).into_owned()
}

/// The text that bytes are.
pub open spec fn bytes_text(bytes: Seq<u8>) -> Seq<char> {
    if valid_utf8(bytes) {
        decode_utf8(bytes)
    } else {
        lossy(bytes)
    }
}

/// A part of a file.
#[derive(Debug, Clone, PartialEq)]
pub struct Part {
    pub name: String,
    pub data: String,
}

/// The names and the texts of parts.
pub open spec fn part_texts(parts: Seq<Part>) -> Seq<(Seq<char>, Seq<char>)> {
    Seq::new(parts.len(), |i: int| (parts[i].name@, parts[i].data@))
}

/// The parts of an archive as texts: the last one of each name that can be read.
pub open spec fn part_text(parts: Seq<Option<(Seq<char>, Seq<u8>)>>, name: Seq<char>) -> Option<
    Seq<char>,
>
    decreases parts.len(),
{
    if parts.len() == 0 {
        None
    } else {
        match parts.last() {
            Some(p) if p.0 == name => Some(bytes_text(p.1)),
            _ => part_text(parts.drop_last(), name),
        }
    }
}

/// The part of a name among parts; the last of several.
pub open spec fn named_part(parts: Seq<(Seq<char>, Seq<char>)>, name: Seq<char>) -> Option<Seq<char>>
    decreases parts.len(),
{
    if parts.len() == 0 {
        None
    } else if parts.last().0 == name {
        Some(parts.last().1)
    } else {
        named_part(parts.drop_last(), name)
    }
}

/// Parts with the bytes of their texts.
pub open spec fn encoded(parts: Seq<(Seq<char>, Seq<char>)>) -> Seq<(Seq<char>, Seq<u8>)> {
    Seq::new(parts.len(), |i: int| (parts[i].0, encode_utf8(parts[i].1)))
}

/// Whether the bytes are an archive of parts, all of which can be read.
pub open spec fn holds_parts(bytes: Seq<u8>, parts: Seq<(Seq<char>, Seq<char>)>) -> bool {
    archive_of(bytes) == Some(all_read(encoded(parts)))
}

/// Whether an archive takes parts one after the other, in order, and can be finished with them.
pub open spec fn can_pack(parts: Seq<(Seq<char>, Seq<char>)>) -> bool {
    let all = encoded(parts);
    &&& forall|i: int|
        0 <= i < all.len() ==> takes_part(#[trigger] all.take(i), all[i].0, all[i].1)
    &&& can_finish(all)
}

/// Packs parts into an archive. Nothing comes of it where the archive does not take a part, which
/// it never does if another part has its name or it has too many bytes.
pub fn pack_parts(parts: &Vec<Part>) -> (r: Option<Vec<u8>>)
    requires
        forall|i: int| 0 <= i < parts.len() ==> is_part_name(#[trigger] parts@[i].name@),
    ensures
        r is Some <==> can_pack(part_texts(parts@)),
        r matches Some(bytes) ==> holds_parts(bytes@, part_texts(parts@)),
        r is Some ==> forall|i: int, j: int|
            0 <= i < j < parts.len() ==> (#[trigger] parts@[i]).name@ != (#[trigger] parts@[j]).name@,
        r is Some ==> forall|i: int|
            0 <= i < parts.len() ==> encode_utf8((#[trigger] parts@[i]).data@).len() <= MOST_BYTES,
{
    let mut p = start_packing();
    let ghost all = encoded(part_texts(parts@));
    let mut i: usize = 0;
    assert(all.take(0) == Seq::<(Seq<char>, Seq<u8>)>::empty());
    while i < parts.len()
        invariant
            i <= parts.len(),
            all == encoded(part_texts(parts@)),
            forall|k: int| 0 <= k < parts.len() ==> is_part_name(#[trigger] parts@[k].name@),
            packed(p) == all.take(i as int),
            forall|k: int| 0 <= k < i ==> takes_part(#[trigger] all.take(k), all[k].0, all[k].1),
            forall|k: int, j: int|
                0 <= k < j < i ==> (#[trigger] parts@[k]).name@ != (#[trigger] parts@[j]).name@,
            forall|k: int|
                0 <= k < i ==> encode_utf8((#[trigger] parts@[k]).data@).len() <= MOST_BYTES,
        decreases parts.len() - i,
    {
        let ghost here = all[i as int];
        assert(here == (parts@[i as int].name@, encode_utf8(parts@[i as int].data@)));
        match pack(p, parts[i].name.as_str(), parts[i].data.as_str()) {
            Some(q) => {
                assert forall|k: int| 0 <= k < i implies (#[trigger] parts@[k]).name@
                    != parts@[i as int].name@ by {
                    assert(all.take(i as int)[k].0 == parts@[k].name@);
                }
                p = q;
            },
            None => {
                assert(!takes_part(all.take(i as int), here.0, here.1));
                return None;
            },
        }
        assert(all.take(i + 1) == all.take(i as int).push(here));
        i = i + 1;
    }
    assert(all.take(i as int) == all);
    finish_packing(p)
}

/// The parts of a file.
pub struct Parts {
    parts: Vec<Part>,
    read: Ghost<Seq<Option<(Seq<char>, Seq<u8>)>>>,
}

impl Parts {
    /// What was read.
    pub closed spec fn view(&self) -> Seq<Option<(Seq<char>, Seq<u8>)>> {
        self.read@
    }

    pub closed spec fn wf(&self) -> bool {
        forall|name: Seq<char>|
            part_text(self.read@, name) == #[trigger] named_part(part_texts(self.parts@), name)
    }

    /// The text of a part.
    pub fn get(&self, name: &str) -> (r: Option<&String>)
        requires
            self.wf(),
        ensures
            match part_text(self@, name@) {
                Some(t) => r matches Some(s) && s@ == t,
                None => r is None,
            },
    {
        let ghost all = part_texts(self.parts@);
        let mut i: usize = self.parts.len();
        assert(all.take(i as int) == all);
        while i > 0
            invariant
                i <= self.parts.len(),
                all == part_texts(self.parts@),
                named_part(all, name@) == named_part(all.take(i as int), name@),
                part_text(self@, name@) == named_part(all, name@),
            decreases i,
        {
            i = i - 1;
            assert(all.take(i + 1).drop_last() == all.take(i as int));
            if crate::text::same_text(self.parts[i].name.as_str(), name) {
                return Some(&self.parts[i].data);
            }
        }
        None
    }
}

/// The parts of an archive as texts; none where the bytes are no archive.
pub fn unzip(bytes: &[u8]) -> (r: Parts)
    ensures
        r.wf(),
        r@ == (match archive_of(bytes@) {
            Some(parts) => parts,
            None => Seq::empty(),
        }),
{
    let mut parts: Vec<Part> = Vec::new();
    let mut a = match open_archive(bytes) {
        Some(a) => a,
        None => {
            let r = Parts { parts, read: Ghost(Seq::empty()) };
            assert(part_texts(r.parts@) == Seq::<(Seq<char>, Seq<char>)>::empty());
            return r;
        },
    };
    let ghost all = contents(a);
    let n: usize = part_count(&a);
    let mut i: usize = 0;
    while i < n
        invariant
            i <= n,
            n == all.len(),
            contents(a) == all,
            forall|name: Seq<char>|
                part_text(all.take(i as int), name) == #[trigger] named_part(part_texts(parts@), name),
        decreases n - i,
    {
        let ghost before = part_texts(parts@);
        assert(all.take(i + 1).drop_last() == all.take(i as int));
        if let Some((name, data)) = read_part(&mut a, i) {
            let text: String = text_of_bytes(&data);
            let ghost added = (name@, text@);
            parts.push(Part { name, data: text });
            assert(part_texts(parts@) == before.push(added));
            assert(before.push(added).drop_last() == before);
        }
        assert forall|n: Seq<char>|
            part_text(all.take(i + 1), n) == #[trigger] named_part(part_texts(parts@), n) by {
            assert(part_text(all.take(i as int), n) == named_part(before, n));
        }
        i = i + 1;
    }
    assert(all.take(i as int) == all);
    Parts { parts, read: Ghost(all) }
}

/// Reading an archive gives back the texts that were packed.
pub proof fn unpacks_what_was_packed(
    bytes: Seq<u8>,
    parts: Seq<(Seq<char>, Seq<char>)>,
    name: Seq<char>,
)
    requires
        holds_parts(bytes, parts),
    ensures
        archive_of(bytes) matches Some(all) && part_text(all, name) == named_part(parts, name),
{
    reads_back(parts, name);
}

proof fn reads_back(parts: Seq<(Seq<char>, Seq<char>)>, name: Seq<char>)
    ensures
        part_text(
            all_read(encoded(parts)),
            name,
        ) == named_part(parts, name),
    decreases parts.len(),
{
    let all = all_read(encoded(parts));
    if parts.len() > 0 {
        let p = parts.drop_last();
        reads_back(p, name);
        assert(all.drop_last() == all_read(encoded(p)));
        vstd::utf8::encode_utf8_valid_utf8(parts.last().1);
        vstd::utf8::encode_utf8_decode_utf8(parts.last().1);
    }
}

} // verus!
