//! Packing and unpacking `.nyp` archives (`tar`, then `zstd`), and
//! checking the signature a package carries.

use vstd::prelude::*;
use std::io::Read;
use vstd::utf8::{decode_utf8, valid_utf8};
use crate::errors::PackageError;
use crate::package::manifest::PackageManifest;
use crate::package::signing::{
    entry_views, is_signature_entry, spec_key_valid, spec_public_key, spec_signable_bytes,
    spec_signature, spec_verifies, SigningKey, Signature, VerifyingKey, PUBLIC_KEY_MEMBER_PATH,
    SIGNATURE_MEMBER_PATH, SIGNATURES_DIR,
};
use crate::package::{has_entry, member_path, validate_layout, EntryPath, PackageMember};

verus! {

#[verifier::external_type_specification]
#[verifier::external_body]
pub struct ExIoError(std::io::Error);

/// A `tar::Builder` writing into memory. Verus refuses a declaration of
/// `tar::Builder` itself (its parameter is bound by `std::io::Write`), so
/// it is held here, opaque, and known only through `spec_tar_appended`.
#[verifier::external_body]
pub struct TarWriter {
    inner: tar::Builder<Vec<u8>>,
}

// ---------------------------------------------------------------------
// What tar and zstd compute.
// ---------------------------------------------------------------------

/// The `(path, contents)` entries appended to a tar builder so far.
pub uninterp spec fn spec_tar_appended(b: TarWriter) -> Seq<(Seq<char>, Seq<u8>)>;

/// Whether `tar::Builder::append_data` accepts `path` as an entry name.
pub uninterp spec fn spec_tar_accepts(path: Seq<char>) -> bool;

/// The file mode each entry of a package archive is written with.
pub const ENTRY_MODE: u32 = 0o644;

/// The finished tar stream holding `entries`, in order, each under a GNU
/// header of mode `ENTRY_MODE`.
pub uninterp spec fn spec_tar_archive(entries: Seq<(Seq<char>, Seq<u8>)>) -> Seq<u8>;

/// Whether `tar::Archive` reads every entry of `tar` without error.
pub uninterp spec fn spec_tar_readable(tar: Seq<u8>) -> bool;

/// The `(path, contents)` entries `tar::Archive` reads from `tar`, paths
/// converted with `to_string_lossy`.
pub uninterp spec fn spec_tar_contents(tar: Seq<u8>) -> Seq<(Seq<char>, Seq<u8>)>;

/// `zstd::stream::encode_all` at level 0.
pub uninterp spec fn spec_zstd_encode(data: Seq<u8>) -> Seq<u8>;

/// Whether `zstd::stream::decode_all` accepts `data`.
pub uninterp spec fn spec_zstd_valid(data: Seq<u8>) -> bool;

/// `zstd::stream::decode_all` on accepted data.
pub uninterp spec fn spec_zstd_decode(data: Seq<u8>) -> Seq<u8>;

/// Whether `p` is a plain relative path: non-empty components joined by
/// single slashes, none of them `.` or `..`, and no NUL character.
pub open spec fn is_plain_path(p: Seq<char>) -> bool {
    &&& p.len() > 0
    &&& p[0] != '/'
    &&& p[p.len() - 1] != '/'
    &&& forall|i: int| 0 <= i < p.len() ==> #[trigger] p[i] != '\0'
    &&& forall|i: int| 0 <= i < p.len() - 1 && #[trigger] p[i] == '/' ==> p[i + 1] != '/'
    &&& forall|i: int|
        0 <= i < p.len() && #[trigger] p[i] == '.' && (i == 0 || p[i - 1] == '/') ==> !(i + 1
            == p.len() || p[i + 1] == '/') && !(i + 1 < p.len() && p[i + 1] == '.' && (i + 2
            == p.len() || p[i + 2] == '/'))
}

/// Whether every entry's path is plain.
pub open spec fn all_plain_paths(es: Seq<(Seq<char>, Seq<u8>)>) -> bool {
    forall|i: int| 0 <= i < es.len() ==> is_plain_path(#[trigger] es[i].0)
}

/// Whether `data` decompresses to a tar stream that reads back as
/// exactly `entries`, in order.
pub open spec fn archive_holds(data: Seq<u8>, entries: Seq<(Seq<char>, Seq<u8>)>) -> bool {
    &&& spec_zstd_valid(data)
    &&& spec_tar_readable(spec_zstd_decode(data))
    &&& spec_tar_contents(spec_zstd_decode(data)) == entries
}

/// `tar::Builder::new` over an empty vector.
#[verifier::external_body]
fn tar_builder() -> (b: TarWriter)
    ensures
        spec_tar_appended(b) == Seq::<(Seq<char>, Seq<u8>)>::empty(),
{
    TarWriter { inner: tar::Builder::new(Vec::new()) }
}

/// `tar::Builder::append_data` with a GNU header of the given mode (always
/// `ENTRY_MODE`) and the contents' size.
#[verifier::external_body]
fn tar_append(b: &mut TarWriter, path: &str, contents: &[u8], mode: u32) -> (r: Result<
    (),
    std::io::Error,
>)
    requires
        mode == ENTRY_MODE,
    ensures
        r is Ok <==> spec_tar_accepts(path@),
        r is Ok ==> spec_tar_appended(*final(b)) == spec_tar_appended(*old(b)).push(
            (path@, contents@),
        ),
{
    let mut header = tar::Header::new_gnu();
    header.set_size(contents.len() as u64);
    header.set_mode(mode);
    header.set_cksum();
    b.inner.append_data(&mut header, path, contents)
}

/// `tar::Builder::into_inner`, which finishes the archive. It writes the
/// closing zero blocks into a `Vec`, which cannot fail. Where every path
/// appended was plain, `tar::Archive` reads the finished stream back as
/// exactly the entries appended, in order; for other paths (which tar
/// normalizes, as `./a` to `a`) nothing is said of what reads back.
#[verifier::external_body]
fn tar_finish(b: TarWriter) -> (r: Result<Vec<u8>, std::io::Error>)
    ensures
        r is Ok,
        r is Ok ==> r->Ok_0@ == spec_tar_archive(spec_tar_appended(b)),
        r is Ok && all_plain_paths(spec_tar_appended(b)) ==> spec_tar_readable(r->Ok_0@)
            && spec_tar_contents(r->Ok_0@) == spec_tar_appended(b),
{
    b.inner.into_inner()
}

/// Every entry of a tar stream, as `(path, contents)`.
#[verifier::external_body]
fn tar_read_entries(tar: &[u8]) -> (r: Result<Vec<(String, Vec<u8>)>, std::io::Error>)
    ensures
        r is Ok <==> spec_tar_readable(tar@),
        r is Ok ==> entry_views(r->Ok_0@) == spec_tar_contents(tar@),
{
    let mut archive = tar::Archive::new(std::io::Cursor::new(tar));
    archive.entries()?.map(|entry| {
        let mut entry = entry?;
        let path = entry.path()?.to_string_lossy().into_owned();
        let mut contents = Vec::new();
        entry.read_to_end(&mut contents)?;
        Ok((path, contents))
    }).collect()
}

/// `zstd::stream::encode_all` at the default level, reading from memory
/// and writing into a `Vec`, which cannot fail. The compression is
/// lossless: `decode_all` accepts what it returns and gives back `data`.
#[verifier::external_body]
fn zstd_encode(data: &[u8]) -> (r: Result<Vec<u8>, std::io::Error>)
    ensures
        r is Ok,
        r is Ok ==> r->Ok_0@ == spec_zstd_encode(data@),
        r is Ok ==> spec_zstd_valid(r->Ok_0@) && spec_zstd_decode(r->Ok_0@) == data@,
{
    zstd::stream::encode_all(std::io::Cursor::new(data), 0)
}

/// `zstd::stream::decode_all`.
#[verifier::external_body]
fn zstd_decode(data: &[u8]) -> (r: Result<Vec<u8>, std::io::Error>)
    ensures
        r is Ok <==> spec_zstd_valid(data@),
        r is Ok ==> r->Ok_0@ == spec_zstd_decode(data@),
{
    zstd::stream::decode_all(std::io::Cursor::new(data))
}

/// The message of an I/O error (its `Display`).
#[verifier::external_body]
fn io_error_text(e: &std::io::Error) -> String {
    e.to_string()
}

/// `String::from_utf8`.
#[verifier::external_body]
fn utf8_string(bytes: Vec<u8>) -> (r: Option<String>)
    ensures
        r is Some <==> valid_utf8(bytes@),
        r is Some ==> r->0@ == decode_utf8(bytes@),
{
    String::from_utf8(bytes).ok()
}

// ---------------------------------------------------------------------
// Errors.
// ---------------------------------------------------------------------

/// The path named in errors about an in-memory archive.
pub open spec fn in_memory_archive() -> Seq<char> {
    "<in-memory .nyp archive>"@
}

/// Whether `e` is an I/O error about the in-memory archive.
pub open spec fn is_archive_io_error(e: PackageError) -> bool {
    e matches PackageError::Io { path, .. } && path@ == in_memory_archive()
}

/// Wraps an I/O error on the in-memory archive as a `PackageError`.
pub fn io_error(source: std::io::Error) -> (e: PackageError)
    ensures
        is_archive_io_error(e),
{
    PackageError::Io { path: "<in-memory .nyp archive>".to_owned(), source: io_error_text(&source) }
}

/// The message `read_to_string` gives for bytes that are not UTF-8.
pub open spec fn not_utf8_message() -> Seq<char> {
    "stream did not contain valid UTF-8"@
}

/// The error for a manifest that is not UTF-8 text.
pub open spec fn is_not_utf8_error(e: PackageError) -> bool {
    e matches PackageError::Io { path, source } && path@ == in_memory_archive() && source@
        == not_utf8_message()
}

// ---------------------------------------------------------------------
// Building.
// ---------------------------------------------------------------------

/// Builds a `.nyp` archive in memory: `tar`, then `zstd`.
pub struct PackageBuilder {
    entries: Vec<(String, Vec<u8>)>,
}

impl View for PackageBuilder {
    type V = Seq<(Seq<char>, Seq<u8>)>;

    closed spec fn view(&self) -> Seq<(Seq<char>, Seq<u8>)> {
        entry_views(self.entries@)
    }
}

/// A copy of a byte slice.
pub fn copy_bytes(b: &[u8]) -> (v: Vec<u8>)
    ensures
        v@ == b@,
{
    let mut v: Vec<u8> = Vec::new();
    crate::text::append_bytes(&mut v, b);
    assert(v@ =~= b@);
    v
}

/// Pushing an entry after a sequence with nothing at `path` makes the
/// first entry at `path` that of the pushed one, if it lies there.
proof fn lemma_first_entry_push_absent(es: Seq<(Seq<char>, Seq<u8>)>, e: (Seq<char>, Seq<u8>), path: Seq<char>)
    requires
        !has_path(es, path),
    ensures
        first_entry(es.push(e), path) == (if e.0 == path { Some(e.1) } else { None::<Seq<u8>> }),
        !has_path(es.push(e), path) <== e.0 != path,
    decreases es.len(),
{
    if es.len() == 0 {
        assert(es.push(e).drop_first() =~= Seq::<(Seq<char>, Seq<u8>)>::empty());
    } else {
        assert(es[0].0 != path);
        assert(es.push(e).drop_first() =~= es.drop_first().push(e));
        assert(!has_path(es.drop_first(), path)) by {
            if has_path(es.drop_first(), path) {
                let i = choose|i: int| 0 <= i < es.drop_first().len() && #[trigger] es.drop_first()[i].0 == path;
                assert(es[i + 1].0 == path);
            }
        }
        lemma_first_entry_push_absent(es.drop_first(), e, path);
    }
    if e.0 != path {
        if has_path(es.push(e), path) {
            let i = choose|i: int| 0 <= i < es.push(e).len() && #[trigger] es.push(e)[i].0 == path;
            if i < es.len() {
                assert(es[i].0 == path);
            }
        }
    }
}

/// Pushing never changes the first entry at a path already present.
proof fn lemma_first_entry_present(es: Seq<(Seq<char>, Seq<u8>)>, e: (Seq<char>, Seq<u8>), path: Seq<char>)
    requires
        first_entry(es, path) is Some,
    ensures
        first_entry(es.push(e), path) == first_entry(es, path),
    decreases es.len(),
{
    if es[0].0 != path {
        assert(es.push(e).drop_first() =~= es.drop_first().push(e));
        lemma_first_entry_present(es.drop_first(), e, path);
    }
}

impl PackageBuilder {
    /// An empty archive.
    pub fn new() -> (b: PackageBuilder)
        ensures
            b@ == Seq::<(Seq<char>, Seq<u8>)>::empty(),
    {
        let b = PackageBuilder { entries: Vec::new() };
        assert(b@ =~= Seq::<(Seq<char>, Seq<u8>)>::empty());
        b
    }

    /// Adds a file at `path`; files are written in the order added.
    pub fn add_file(self, path: &str, contents: &[u8]) -> (b: PackageBuilder)
        ensures
            b@ == self@.push((path@, contents@)),
    {
        let mut entries = self.entries;
        let ghost before = entries@;
        entries.push((path.to_owned(), copy_bytes(contents)));
        let b = PackageBuilder { entries };
        assert(b@ =~= entry_views(before).push((path@, contents@)));
        b
    }

    /// Signs every file added so far with `signing_key`, then adds the
    /// signature and the key's public half as two more files. Where no
    /// file was at either of those two paths before, the files now carry
    /// a signature that verifies.
    pub fn sign(self, signing_key: &SigningKey) -> (b: PackageBuilder)
        ensures
            b@ == self@.push(
                (SIGNATURE_MEMBER_PATH@, spec_signature(signing_key@, spec_signable_bytes(self@))),
            ).push((PUBLIC_KEY_MEMBER_PATH@, spec_public_key(signing_key@))),
            !has_path(self@, SIGNATURE_MEMBER_PATH@) && !has_path(self@, PUBLIC_KEY_MEMBER_PATH@)
                ==> spec_signature_status(b@) == SignatureStatus::Verified,
    {
        let ghost before = self@;
        let signature = crate::package::signing::sign(self.entries.as_slice(), signing_key);
        let sig_bytes = signature.to_bytes();
        let key_bytes = signing_key.verifying_key().to_bytes();
        let b = self.add_file(SIGNATURE_MEMBER_PATH, sig_bytes.as_slice()).add_file(
            PUBLIC_KEY_MEMBER_PATH,
            key_bytes.as_slice(),
        );
        proof {
            reveal_strlit("signatures/ed25519.sig");
            reveal_strlit("signatures/ed25519.pub");
            reveal_strlit("signatures/");
            let sig_e = (SIGNATURE_MEMBER_PATH@, sig_bytes@);
            let key_e = (PUBLIC_KEY_MEMBER_PATH@, key_bytes@);
            let mid = before.push(sig_e);
            assert(SIGNATURE_MEMBER_PATH@ != PUBLIC_KEY_MEMBER_PATH@) by {
                assert(SIGNATURE_MEMBER_PATH@[21] != PUBLIC_KEY_MEMBER_PATH@[21]);
            }
            assert(is_signature_entry(SIGNATURE_MEMBER_PATH@)) by {
                assert(SIGNATURE_MEMBER_PATH@.take(SIGNATURES_DIR@.len() as int) =~= SIGNATURES_DIR@);
            }
            assert(is_signature_entry(PUBLIC_KEY_MEMBER_PATH@)) by {
                assert(PUBLIC_KEY_MEMBER_PATH@.take(SIGNATURES_DIR@.len() as int) =~= SIGNATURES_DIR@);
            }
            crate::package::signing::lemma_signature_entries_not_covered(before, sig_e);
            crate::package::signing::lemma_signature_entries_not_covered(mid, key_e);
            if !has_path(before, SIGNATURE_MEMBER_PATH@) && !has_path(before, PUBLIC_KEY_MEMBER_PATH@) {
                lemma_first_entry_push_absent(before, sig_e, SIGNATURE_MEMBER_PATH@);
                lemma_first_entry_push_absent(before, sig_e, PUBLIC_KEY_MEMBER_PATH@);
                lemma_first_entry_present(mid, key_e, SIGNATURE_MEMBER_PATH@);
                lemma_first_entry_push_absent(mid, key_e, PUBLIC_KEY_MEMBER_PATH@);
                assert(b@ == mid.push(key_e));
            }
        }
        b
    }

    /// The files added so far.
    pub fn files(&self) -> (v: &Vec<(String, Vec<u8>)>)
        ensures
            entry_views(v@) == self@,
    {
        &self.entries
    }

    /// The archive: every file in a `tar` stream, `zstd`-compressed.
    /// Fails with an I/O error where `tar` refuses a path. Where every
    /// path is plain, the archive holds exactly these files in this order:
    /// `unpack` gives them back.
    pub fn build(&self) -> (r: Result<Vec<u8>, PackageError>)
        ensures
            r is Ok ==> r->Ok_0@ == spec_zstd_encode(spec_tar_archive(self@)),
            r is Ok && all_plain_paths(self@) ==> archive_holds(r->Ok_0@, self@),
            (exists|i: int| 0 <= i < self@.len() && !spec_tar_accepts(#[trigger] self@[i].0))
                ==> r is Err,
            (forall|i: int| 0 <= i < self@.len() ==> spec_tar_accepts(#[trigger] self@[i].0)) ==> r is Ok,
            r is Err ==> is_archive_io_error(r->Err_0),
    {
        let mut builder = tar_builder();
        let mut i: usize = 0;
        while i < self.entries.len()
            invariant
                i <= self.entries.len(),
                spec_tar_appended(builder) == self@.take(i as int),
                forall|j: int| 0 <= j < i ==> spec_tar_accepts(#[trigger] self@[j].0),
            decreases self.entries.len() - i,
        {
            let path = self.entries[i].0.as_str();
            let contents = self.entries[i].1.as_slice();
            match tar_append(&mut builder, path, contents, ENTRY_MODE) {
                Ok(()) => {},
                Err(e) => {
                    assert(self@[i as int].0 == path@);
                    assert(!spec_tar_accepts(self@[i as int].0));
                    return Err(io_error(e));
                },
            }
            assert(self@.take(i + 1) =~= self@.take(i as int).push((path@, contents@)));
            i += 1;
        }
        assert(self@.take(self.entries.len() as int) =~= self@);
        let tar_bytes = match tar_finish(builder) {
            Ok(t) => t,
            Err(e) => {
                return Err(io_error(e));
            },
        };
        match zstd_encode(tar_bytes.as_slice()) {
            Ok(out) => Ok(out),
            Err(e) => Err(io_error(e)),
        }
    }
}

} // verus!

verus! {

// ---------------------------------------------------------------------
// Reading.
// ---------------------------------------------------------------------

/// The first entry at `path`, if any.
pub open spec fn first_entry(es: Seq<(Seq<char>, Seq<u8>)>, path: Seq<char>) -> Option<Seq<u8>>
    decreases es.len(),
{
    if es.len() == 0 {
        None
    } else if es[0].0 == path {
        Some(es[0].1)
    } else {
        first_entry(es.drop_first(), path)
    }
}

/// The last entry at `path`, if any.
pub open spec fn last_entry(es: Seq<(Seq<char>, Seq<u8>)>, path: Seq<char>) -> Option<Seq<u8>>
    decreases es.len(),
{
    if es.len() == 0 {
        None
    } else if es.last().0 == path {
        Some(es.last().1)
    } else {
        last_entry(es.drop_last(), path)
    }
}

/// Whether some entry lies at `path`.
pub open spec fn has_path(es: Seq<(Seq<char>, Seq<u8>)>, path: Seq<char>) -> bool {
    exists|i: int| 0 <= i < es.len() && #[trigger] es[i].0 == path
}

/// Whether every entry at `path` holds UTF-8 text.
pub open spec fn all_utf8_at(es: Seq<(Seq<char>, Seq<u8>)>, path: Seq<char>) -> bool {
    forall|i: int| 0 <= i < es.len() && #[trigger] es[i].0 == path ==> valid_utf8(es[i].1)
}

/// A decompressed archive: its entries, and the manifest's text.
#[derive(Debug)]
pub struct UnpackedPackage {
    pub entries: Vec<(String, Vec<u8>)>,
    pub manifest_text: String,
}

proof fn lemma_first_entry_skip(es: Seq<(Seq<char>, Seq<u8>)>, path: Seq<char>, i: int)
    requires
        0 <= i < es.len(),
    ensures
        first_entry(es.skip(i), path) == (if es[i].0 == path {
            Some(es[i].1)
        } else {
            first_entry(es.skip(i + 1), path)
        }),
{
    assert(es.skip(i)[0] == es[i]);
    assert(es.skip(i).drop_first() =~= es.skip(i + 1));
}

fn find_entry(entries: &Vec<(String, Vec<u8>)>, path: &str) -> (r: Option<usize>)
    ensures
        match r {
            Some(i) => i < entries.len() && first_entry(entry_views(entries@), path@) == Some(
                entries@[i as int].1@,
            ) && entries@[i as int].0@ == path@,
            None => first_entry(entry_views(entries@), path@) is None,
        },
{
    let ghost ev = entry_views(entries@);
    let mut i: usize = 0;
    assert(ev.skip(0) =~= ev);
    while i < entries.len()
        invariant
            ev == entry_views(entries@),
            i <= entries.len(),
            first_entry(ev, path@) == first_entry(ev.skip(i as int), path@),
        decreases entries.len() - i,
    {
        proof {
            lemma_first_entry_skip(ev, path@, i as int);
        }
        if crate::text::str_eq(entries[i].0.as_str(), path) {
            return Some(i);
        }
        i += 1;
    }
    assert(ev.skip(i as int).len() == 0);
    None
}

fn clone_entries(entries: &Vec<(String, Vec<u8>)>) -> (v: Vec<(String, Vec<u8>)>)
    ensures
        entry_views(v@) == entry_views(entries@),
{
    let mut v: Vec<(String, Vec<u8>)> = Vec::new();
    let mut i: usize = 0;
    while i < entries.len()
        invariant
            i <= entries.len(),
            v@.len() == i,
            entry_views(v@) == entry_views(entries@).take(i as int),
        decreases entries.len() - i,
    {
        let path = entries[i].0.clone();
        let contents = copy_bytes(entries[i].1.as_slice());
        assert(path@ == entries@[i as int].0@);
        v.push((path, contents));
        assert(v@[i as int].0@ == entries@[i as int].0@);
        assert(v@[i as int].1@ == entries@[i as int].1@);
        assert(entry_views(v@) =~= entry_views(entries@).take(i + 1)) by {
            assert(entry_views(v@)[i as int] == entry_views(entries@)[i as int]);
        }
        i += 1;
    }
    assert(entry_views(entries@).take(entries.len() as int) =~= entry_views(entries@));
    v
}

/// Decompresses a `.nyp` archive, reads its entries, checks its layout
/// and reads `manifest.toml` as text. Fails with an I/O error where the
/// data is not `zstd`, the stream is not `tar`, or a manifest entry is
/// not UTF-8; and with `MissingMember` where there is no manifest.
pub fn unpack(data: &[u8]) -> (r: Result<UnpackedPackage, PackageError>)
    ensures
        !spec_zstd_valid(data@) ==> r is Err && is_archive_io_error(r->Err_0),
        spec_zstd_valid(data@) && !spec_tar_readable(spec_zstd_decode(data@)) ==> r is Err
            && is_archive_io_error(r->Err_0),
        spec_zstd_valid(data@) && spec_tar_readable(spec_zstd_decode(data@)) && !all_utf8_at(
            spec_tar_contents(spec_zstd_decode(data@)),
            member_path(PackageMember::Manifest),
        ) ==> r is Err && is_not_utf8_error(r->Err_0),
        spec_zstd_valid(data@) && spec_tar_readable(spec_zstd_decode(data@)) && all_utf8_at(
            spec_tar_contents(spec_zstd_decode(data@)),
            member_path(PackageMember::Manifest),
        ) && !has_path(spec_tar_contents(spec_zstd_decode(data@)), member_path(PackageMember::Manifest))
            ==> r is Err && crate::package::is_missing_member(
            r->Err_0,
            member_path(PackageMember::Manifest),
        ),
        spec_zstd_valid(data@) && spec_tar_readable(spec_zstd_decode(data@)) && all_utf8_at(
            spec_tar_contents(spec_zstd_decode(data@)),
            member_path(PackageMember::Manifest),
        ) && has_path(spec_tar_contents(spec_zstd_decode(data@)), member_path(PackageMember::Manifest))
            ==> r is Ok && entry_views(r->Ok_0.entries@) == spec_tar_contents(
            spec_zstd_decode(data@),
        ) && r->Ok_0.manifest_text@ == decode_utf8(
            last_entry(spec_tar_contents(spec_zstd_decode(data@)), member_path(PackageMember::Manifest))->0,
        ),
        forall|es: Seq<(Seq<char>, Seq<u8>)>|
            #[trigger] archive_holds(data@, es) && has_path(es, member_path(PackageMember::Manifest))
                && all_utf8_at(es, member_path(PackageMember::Manifest)) ==> r is Ok && entry_views(
                r->Ok_0.entries@,
            ) == es,
{
    let tar_bytes = match zstd_decode(data) {
        Ok(t) => t,
        Err(e) => {
            return Err(io_error(e));
        },
    };
    let entries = match tar_read_entries(tar_bytes.as_slice()) {
        Ok(es) => es,
        Err(e) => {
            return Err(io_error(e));
        },
    };
    let ghost es = entry_views(entries@);
    let ghost manifest = member_path(PackageMember::Manifest);
    let manifest_path = PackageMember::Manifest.path();
    let mut paths: Vec<String> = Vec::new();
    let mut manifest_text: Option<String> = None;
    let mut i: usize = 0;
    while i < entries.len()
        invariant
            es == entry_views(entries@),
            spec_zstd_valid(data@),
            spec_tar_readable(spec_zstd_decode(data@)),
            es == spec_tar_contents(spec_zstd_decode(data@)),
            manifest == member_path(PackageMember::Manifest),
            manifest_path@ == manifest,
            i <= entries.len(),
            paths@.len() == i,
            forall|j: int| 0 <= j < i ==> (#[trigger] paths@[j])@ == es[j].0,
            all_utf8_at(es.take(i as int), manifest),
            manifest_text is Some <==> has_path(es.take(i as int), manifest),
            manifest_text is Some ==> manifest_text->0@ == decode_utf8(
                last_entry(es.take(i as int), manifest)->0,
            ),
        decreases entries.len() - i,
    {
        let path = entries[i].0.clone();
        proof {
            assert(es.take(i + 1).drop_last() =~= es.take(i as int));
            assert(es.take(i + 1).last() == es[i as int]);
        }
        if crate::text::str_eq(path.as_str(), manifest_path) {
            let contents = copy_bytes(entries[i].1.as_slice());
            match utf8_string(contents) {
                Some(text) => {
                    manifest_text = Some(text);
                },
                None => {
                    proof {
                        assert(!all_utf8_at(es, manifest)) by {
                            assert(es[i as int].0 == manifest);
                        }
                    }
                    let err = PackageError::Io {
                        path: "<in-memory .nyp archive>".to_owned(),
                        source: "stream did not contain valid UTF-8".to_owned(),
                    };
                    assert(is_not_utf8_error(err));
                    return Err(err);
                },
            }
        }
        paths.push(path);
        proof {
            assert forall|k: int|
                0 <= k < i + 1 && #[trigger] es.take(i + 1)[k].0 == manifest implies valid_utf8(
                es.take(i + 1)[k].1,
            ) by {
                if k < i {
                    assert(es.take(i as int)[k] == es.take(i + 1)[k]);
                }
            }
            if has_path(es.take(i + 1), manifest) && es[i as int].0 != manifest {
                let k = choose|k: int|
                    0 <= k < es.take(i + 1).len() && #[trigger] es.take(i + 1)[k].0 == manifest;
                assert(es.take(i as int)[k] == es.take(i + 1)[k]);
            }
            if has_path(es.take(i as int), manifest) {
                let k = choose|k: int|
                    0 <= k < es.take(i as int).len() && #[trigger] es.take(i as int)[k].0
                        == manifest;
                assert(es.take(i + 1)[k] == es.take(i as int)[k]);
            }
            if es[i as int].0 == manifest {
                assert(es.take(i + 1)[i as int].0 == manifest);
            }
        }
        i += 1;
    }
    proof {
        assert(es.take(entries.len() as int) =~= es);
    }
    match validate_layout(paths.as_slice()) {
        Ok(()) => {},
        Err(e) => {
            proof {
                if has_path(es, manifest) {
                    let k = choose|k: int| 0 <= k < es.len() && #[trigger] es[k].0 == manifest;
                    assert(paths@[k].path_view() == manifest);
                }
            }
            return Err(e);
        },
    }
    proof {
        let k = choose|k: int|
            0 <= k < paths@.len() && #[trigger] paths@[k].path_view() == manifest;
        assert(es[k].0 == manifest);
    }
    match manifest_text {
        Some(text) => Ok(UnpackedPackage { entries, manifest_text: text }),
        None => Err(
            PackageError::MissingMember { path: manifest_path.to_owned() },
        ),
    }
}

} // verus!

verus! {

/// The outcome of checking a package's embedded signature.
#[derive(Debug, Clone, Copy, PartialEq, Eq, Structural)]
pub enum SignatureStatus {
    /// No `signatures/ed25519.sig` and `signatures/ed25519.pub` pair.
    Unsigned,
    /// Present, and the signature verifies against the bundled key.
    Verified,
    /// Present, but malformed or not verifying.
    Invalid,
}

/// What a package's entries say of its signature: `Unsigned` without
/// both the signature and the key; `Invalid` where either has the wrong
/// length, the key is not a curve point, or the signature does not
/// verify over the package's signable bytes; `Verified` otherwise. The
/// first entry at each of the two paths is the one read.
pub open spec fn spec_signature_status(es: Seq<(Seq<char>, Seq<u8>)>) -> SignatureStatus {
    match (first_entry(es, SIGNATURE_MEMBER_PATH@), first_entry(es, PUBLIC_KEY_MEMBER_PATH@)) {
        (Some(sig), Some(key)) => {
            if sig.len() != 64 || key.len() != 32 || !spec_key_valid(key) {
                SignatureStatus::Invalid
            } else if spec_verifies(key, spec_signable_bytes(es), sig) {
                SignatureStatus::Verified
            } else {
                SignatureStatus::Invalid
            }
        },
        _ => SignatureStatus::Unsigned,
    }
}

fn to_array32(v: &[u8]) -> (a: [u8; 32])
    requires
        v@.len() == 32,
    ensures
        a@ == v@,
{
    let mut a = [0u8; 32];
    let mut i: usize = 0;
    while i < 32
        invariant
            v@.len() == 32,
            i <= 32,
            forall|j: int| 0 <= j < i ==> a@[j] == v@[j],
        decreases 32 - i,
    {
        a[i] = v[i];
        i += 1;
    }
    assert(a@ =~= v@);
    a
}

fn to_array64(v: &[u8]) -> (a: [u8; 64])
    requires
        v@.len() == 64,
    ensures
        a@ == v@,
{
    let mut a = [0u8; 64];
    let mut i: usize = 0;
    while i < 64
        invariant
            v@.len() == 64,
            i <= 64,
            forall|j: int| 0 <= j < i ==> a@[j] == v@[j],
        decreases 64 - i,
    {
        a[i] = v[i];
        i += 1;
    }
    assert(a@ =~= v@);
    a
}

/// The error for a package `name` whose signature is missing or bad.
pub open spec fn is_signature_failure(e: PackageError, name: Seq<char>) -> bool {
    e matches PackageError::SignatureFailure { package } && package@ == name
}

/// A `.nyp` archive that has been unpacked and whose manifest has been
/// parsed.
pub struct PackageReader {
    entries: Vec<(String, Vec<u8>)>,
    manifest: PackageManifest,
}

impl PackageReader {
    /// The archive's entries, in archive order.
    pub closed spec fn entries_view(&self) -> Seq<(Seq<char>, Seq<u8>)> {
        entry_views(self.entries@)
    }

    /// The parsed manifest.
    pub closed spec fn manifest_view(&self) -> PackageManifest {
        self.manifest
    }

    /// A reader over an unpacked archive and its parsed manifest.
    pub fn from_parts(unpacked: UnpackedPackage, manifest: PackageManifest) -> (r: PackageReader)
        ensures
            r.entries_view() == entry_views(unpacked.entries@),
            r.manifest_view() == manifest,
    {
        PackageReader { entries: unpacked.entries, manifest }
    }

    /// The package's parsed manifest.
    pub fn manifest(&self) -> (m: &PackageManifest)
        ensures
            *m == self.manifest_view(),
    {
        &self.manifest
    }

    /// The contents of the first entry at `path`, or `None` where there
    /// is none.
    pub fn read_entry(&self, path: &str) -> (r: Result<Option<Vec<u8>>, PackageError>)
        ensures
            r is Ok,
            r->Ok_0 is None <==> first_entry(self.entries_view(), path@) is None,
            r->Ok_0 is Some ==> first_entry(self.entries_view(), path@) == Some(
                r->Ok_0->0@,
            ),
    {
        match find_entry(&self.entries, path) {
            Some(i) => Ok(Some(copy_bytes(self.entries[i].1.as_slice()))),
            None => Ok(None),
        }
    }

    /// Every entry's path and contents, in archive order.
    pub fn entries(&self) -> (r: Result<Vec<(String, Vec<u8>)>, PackageError>)
        ensures
            r is Ok,
            entry_views(r->Ok_0@) == self.entries_view(),
    {
        Ok(clone_entries(&self.entries))
    }

    /// Checks the package's embedded Ed25519 signature, if any, against
    /// the public key bundled beside it. Whether that key is trusted is
    /// not decided here.
    pub fn signature_status(&self) -> (r: Result<SignatureStatus, PackageError>)
        ensures
            r == Ok::<SignatureStatus, PackageError>(spec_signature_status(self.entries_view())),
    {
        let sig_index = find_entry(&self.entries, SIGNATURE_MEMBER_PATH);
        let key_index = find_entry(&self.entries, PUBLIC_KEY_MEMBER_PATH);
        let (si, ki) = match (sig_index, key_index) {
            (Some(si), Some(ki)) => (si, ki),
            _ => {
                return Ok(SignatureStatus::Unsigned);
            },
        };
        let sig_bytes = self.entries[si].1.as_slice();
        let key_bytes = self.entries[ki].1.as_slice();
        if sig_bytes.len() != 64 || key_bytes.len() != 32 {
            return Ok(SignatureStatus::Invalid);
        }
        let signature = Signature::from_bytes(&to_array64(sig_bytes));
        let public_key = match VerifyingKey::from_bytes(&to_array32(key_bytes)) {
            Some(k) => k,
            None => {
                return Ok(SignatureStatus::Invalid);
            },
        };
        match crate::package::signing::verify(self.entries.as_slice(), &signature, &public_key) {
            Ok(()) => Ok(SignatureStatus::Verified),
            Err(_) => Ok(SignatureStatus::Invalid),
        }
    }

    /// Requires a signature that verifies; fails with `SignatureFailure`
    /// naming the package where it is missing or does not verify.
    pub fn require_valid_signature(&self) -> (r: Result<(), PackageError>)
        ensures
            r is Ok <==> spec_signature_status(self.entries_view()) == SignatureStatus::Verified,
            r is Err ==> is_signature_failure(r->Err_0, self.manifest_view().package.name@),
    {
        match self.signature_status() {
            Ok(SignatureStatus::Verified) => Ok(()),
            _ => Err(PackageError::SignatureFailure { package: self.manifest.package.name.clone() }),
        }
    }
}

} // verus!
