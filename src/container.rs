use vstd::prelude::*;

verus! {

/// Whether `cfb::CompoundFile::open` accepts the bytes as a compound file.
pub uninterp spec fn cfb_opens(file: Seq<u8>) -> bool;

/// The bytes of the stream at `path` inside the compound file `file`, as
/// `cfb` reads them, or None where the file or the stream cannot be opened.
pub uninterp spec fn cfb_stream(file: Seq<u8>, path: Seq<char>) -> Option<Seq<u8>>;

/// What `flate2`'s raw DEFLATE decoder makes of the bytes, or None where it fails.
pub uninterp spec fn raw_inflate(data: Seq<u8>) -> Option<Seq<u8>>;

/// Relies on `cfb::CompoundFile::open` over an in-memory cursor: whether the
/// bytes open as a compound file.
#[verifier::external_body]
pub(crate) fn is_compound_file(file: &[u8]) -> (r: bool)
    ensures
        r == cfb_opens(file@),
{
    cfb::CompoundFile::open(std::io::Cursor::new(file)).is_ok()
}

/// Relies on `cfb::CompoundFile::open_stream` and the stream's `read_to_end`:
/// the bytes of the stream at `path`, or None where it cannot be read.
#[verifier::external_body]
pub(crate) fn read_compound_stream(file: &[u8], path: &str) -> (r: Option<Vec<u8>>)
    ensures
        match r {
            Some(v) => cfb_stream(file@, path@) == Some(v@),
            None => cfb_stream(file@, path@) is None,
        },
{
    let mut cf = cfb::CompoundFile::open(std::io::Cursor::new(file)).ok()?;
    let mut stream = cf.open_stream(path).ok()?;
    let mut out: Vec<u8> = Vec::new();
    std::io::Read::read_to_end(&mut stream, &mut out).ok()?;
    Some(out)
}

/// Relies on `flate2::read::DeflateDecoder`: inflates a raw DEFLATE stream
/// (no zlib or gzip wrapper), or yields None where the stream is malformed.
#[verifier::external_body]
pub(crate) fn inflate(data: &[u8]) -> (r: Option<Vec<u8>>)
    ensures
        match r {
            Some(v) => raw_inflate(data@) == Some(v@),
            None => raw_inflate(data@) is None,
        },
{
    let mut out: Vec<u8> = Vec::new();
    std::io::Read::read_to_end(&mut flate2::read::DeflateDecoder::new(data), &mut out).ok()?;
    Some(out)
}

/// Relies on `String`'s `FromIterator<char>`: the string holds the characters in order.
#[verifier::external_body]
pub(crate) fn string_of_chars(cs: &[char]) -> (r: String)
    ensures
        r@ == cs@,
{
    cs.iter().collect()
}

/// Relies on `str::chars`, collected: the characters of the string in order.
#[verifier::external_body]
pub(crate) fn chars_of(s: &str) -> (r: Vec<char>)
    ensures
        r@ == s@,
{
    s.chars().collect()
}

/// What `flate2`'s raw DEFLATE encoder at the default level makes of the bytes.
pub uninterp spec fn raw_deflate(data: Seq<u8>) -> Option<Seq<u8>>;

/// The bytes of the compound file that `cfb` writes with the given storages
/// and streams, created in order, with every timestamp set to the epoch.
pub uninterp spec fn cfb_built(storages: Seq<Seq<char>>, streams: Seq<(Seq<char>, Seq<u8>)>) -> Option<Seq<u8>>;

pub open spec fn names_view(names: Seq<&str>) -> Seq<Seq<char>> {
    names.map_values(|n: &str| n@)
}

pub open spec fn streams_view(streams: Seq<(&str, &[u8])>) -> Seq<(Seq<char>, Seq<u8>)> {
    streams.map_values(|e: (&str, &[u8])| (e.0@, e.1@))
}

/// Relies on `flate2::write::DeflateEncoder` at the default level: the raw
/// DEFLATE stream of the bytes, or None where writing it fails.
#[verifier::external_body]
pub(crate) fn deflate(data: &[u8]) -> (r: Option<Vec<u8>>)
    ensures
        match r {
            Some(v) => raw_deflate(data@) == Some(v@),
            None => raw_deflate(data@) is None,
        },
{
    let mut e = flate2::write::DeflateEncoder::new(Vec::new(), flate2::Compression::default());
    std::io::Write::write_all(&mut e, data).ok()?;
    e.finish().ok()
}

/// Relies on `cfb::CompoundFile::create` over an in-memory cursor, with
/// `create_storage`, `create_stream` and `set_created_time` /
/// `set_modified_time`: the bytes of the compound file, or None where `cfb`
/// refuses a name.
#[verifier::external_body]
pub(crate) fn build_compound_file(storages: &[&str], streams: &[(&str, &[u8])]) -> (r: Option<Vec<u8>>)
    ensures
        match r {
            Some(v) => cfb_built(names_view(storages@), streams_view(streams@)) == Some(v@),
            None => cfb_built(names_view(storages@), streams_view(streams@)) is None,
        },
{
    let mut cf = cfb::CompoundFile::create(std::io::Cursor::new(Vec::new())).ok()?;
    for s in storages.iter() {
        cf.create_storage(s).ok()?;
    }
    for (name, data) in streams.iter() {
        std::io::Write::write_all(&mut cf.create_stream(name).ok()?, data).ok()?;
    }
    for p in std::iter::once(&"/").chain(storages.iter()) {
        cf.set_created_time(p, std::time::UNIX_EPOCH).ok()?;
        cf.set_modified_time(p, std::time::UNIX_EPOCH).ok()?;
    }
    cf.flush().ok()?;
    Some(cf.into_inner().into_inner())
}

/// The bytes of the archive that `zip` writes with the given entries, stored
/// uncompressed in order, each dated 1980-01-01.
pub uninterp spec fn zip_built(entries: Seq<(Seq<char>, Seq<char>)>) -> Option<Seq<u8>>;

/// The text of the entry `name` of the archive `file`, as `zip` reads it, or
/// None where the archive, the entry or its UTF-8 cannot be read.
pub uninterp spec fn zip_entry(file: Seq<u8>, name: Seq<char>) -> Option<Seq<char>>;

pub open spec fn text_entries_view(entries: Seq<(&str, &str)>) -> Seq<(Seq<char>, Seq<char>)> {
    entries.map_values(|e: (&str, &str)| (e.0@, e.1@))
}

/// Relies on `zip::ZipWriter` with `SimpleFileOptions::DEFAULT` (stored,
/// fixed date): `start_file` and `write_all` for each entry, then `finish`.
#[verifier::external_body]
pub(crate) fn build_zip(entries: &[(&str, &str)]) -> (r: Option<Vec<u8>>)
    ensures
        match r {
            Some(v) => zip_built(text_entries_view(entries@)) == Some(v@),
            None => zip_built(text_entries_view(entries@)) is None,
        },
{
    let mut z = zip::ZipWriter::new(std::io::Cursor::new(Vec::new()));
    for (name, text) in entries.iter() {
        z.start_file(*name, zip::write::SimpleFileOptions::DEFAULT).ok()?;
        std::io::Write::write_all(&mut z, text.as_bytes()).ok()?;
    }
    Some(z.finish().ok()?.into_inner())
}

/// Relies on `zip::ZipArchive::new` and `by_name` with `read_to_string`: the
/// text of one entry, or None where it cannot be read.
#[verifier::external_body]
pub(crate) fn read_zip_entry(file: &[u8], name: &str) -> (r: Option<String>)
    ensures
        match r {
            Some(v) => zip_entry(file@, name@) == Some(v@),
            None => zip_entry(file@, name@) is None,
        },
{
    let mut z = zip::ZipArchive::new(std::io::Cursor::new(file)).ok()?;
    let mut entry = z.by_name(name).ok()?;
    let mut out = String::new();
    std::io::Read::read_to_string(&mut entry, &mut out).ok()?;
    Some(out)
}

} // verus!
