//! Helpers to upload to gitlab
use crate::client::{ArtifactFormat, ArtifactInfo, JobArtifact};
use crate::masking::Masker;
use crate::text;
use std::io::Write;
use vstd::prelude::*;

verus! {

// ---------------------------------------------------------------------------
// The zip crate
// ---------------------------------------------------------------------------

/// A zip archive that is being written in memory.
#[verifier::external_body]
pub struct ZipBuffer {
    writer: zip::ZipWriter<std::io::Cursor<Vec<u8>>>,
}

/// The files that were written to an archive so far: the name of each, and its content.
pub uninterp spec fn zipped(buffer: ZipBuffer) -> Seq<(Seq<char>, Seq<u8>)>;

/// Whether an archive can still be written to.
pub uninterp spec fn zip_open(buffer: ZipBuffer) -> bool;

/// The largest content of a file in an archive.
pub const MAX_FILE_LEN: u64 = 0xFFFF_FFFF;

/// How many bytes of an archive the files take, each with what stands before it.
pub open spec fn stored_len(files: Seq<(Seq<char>, Seq<u8>)>) -> nat
    decreases files.len(),
{
    if files.len() == 0 {
        0
    } else {
        stored_len(files.drop_last()) + 30 + text::byte_len(files.last().0) + files.last().1.len()
    }
}

/// How many bytes the list of the files takes at the end of an archive.
pub open spec fn listed_len(files: Seq<(Seq<char>, Seq<u8>)>) -> nat
    decreases files.len(),
{
    if files.len() == 0 {
        0
    } else {
        listed_len(files.drop_last()) + 46 + text::byte_len(files.last().0)
    }
}

/// Whether an archive of these files is a large one, which has a record of its own for numbers of more than
/// 32 bits.
pub open spec fn is_large(files: Seq<(Seq<char>, Seq<u8>)>) -> bool {
    files.len() > 65535 || stored_len(files) > u32::MAX || listed_len(files) > u32::MAX
}

/// The mark that shows where the record of a large archive is. It stands 20 bytes before the end of the list.
pub open spec fn large_mark() -> Seq<u8> {
    seq![0x50u8, 0x4bu8, 0x06u8, 0x07u8]
}

/// A number in four bytes, the lowest first.
pub open spec fn four_bytes(n: nat) -> Seq<u8> {
    seq![
        (n % 0x100) as u8,
        (n / 0x100 % 0x100) as u8,
        (n / 0x1_0000 % 0x100) as u8,
        (n / 0x100_0000 % 0x100) as u8,
    ]
}

/// Whether the list of these files happens to have the mark of a large archive where that is looked for. The
/// list ends in the position and the name of the last file; what it has before them is never the mark.
pub open spec fn seems_large(files: Seq<(Seq<char>, Seq<u8>)>) -> bool {
    files.len() > 0 && {
        let name = vstd::utf8::encode_utf8(files.last().0);
        let end = four_bytes(stored_len(files.drop_last())) + name;
        name.len() >= 16 && end.subrange(end.len() - 20, end.len() - 16) == large_mark()
    }
}

/// Whether an archive of these files is read as what was written. That is so but for names that are too
/// long, a plain archive that seems to be a large one, and, in a large archive, a file of the largest
/// possible size that does not begin in its first 4 GiB.
pub open spec fn reads_back(files: Seq<(Seq<char>, Seq<u8>)>) -> bool {
    &&& forall|i: int| 0 <= i < files.len() ==> text::byte_len((#[trigger] files[i]).0) <= 65535
    &&& is_large(files) ==> forall|i: int|
        0 <= i < files.len() && (#[trigger] files[i]).1.len() == MAX_FILE_LEN ==> stored_len(
            files.take(i),
        ) <= u32::MAX
    &&& !is_large(files) ==> !seems_large(files)
}

/// What the `zip` crate writes for these files, uncompressed and with the options that it uses where none are
/// given.
pub uninterp spec fn zip_bytes(files: Seq<(Seq<char>, Seq<u8>)>) -> Seq<u8>;

/// Files as an archive that holds them is read: all of them are sound.
pub open spec fn stored(files: Seq<(Seq<char>, Seq<u8>)>) -> Seq<crate::artifact::EntryView> {
    files.map_values(|f: (Seq<char>, Seq<u8>)| (f.0, Some((f.1, true))))
}

/// `ZipWriter::new` on an empty buffer in memory.
#[verifier::external_body]
fn zip_new() -> (r: ZipBuffer)
    ensures
        zip_open(r),
        zipped(r) == Seq::<(Seq<char>, Seq<u8>)>::empty(),
{
    ZipBuffer { writer: zip::ZipWriter::new(std::io::Cursor::new(Vec::new())) }
}

/// `ZipWriter::start_file`, without compression, begins an empty file. That fails exactly on an archive that
/// was closed, as memory takes everything.
#[verifier::external_body]
fn zip_start(buffer: &mut ZipBuffer, name: String) -> (r: bool)
    ensures
        r == zip_open(*old(buffer)),
        zip_open(*final(buffer)) == zip_open(*old(buffer)),
        r ==> zipped(*final(buffer)) == zipped(*old(buffer)).push((name@, Seq::<u8>::empty())),
{
    let options = zip::write::FileOptions::default();
    let options = options.compression_method(zip::CompressionMethod::Stored);
    buffer.writer.start_file(name, options).is_ok()
}

/// Writing to a `ZipWriter` appends to the file that was begun last. Where the file grows beyond what the
/// format allows, that closes the archive; a closed archive stays closed. Whether writing failed is not
/// told.
#[verifier::external_body]
fn zip_write(buffer: &mut ZipBuffer, data: &[u8])
    requires
        zip_open(*old(buffer)) ==> zipped(*old(buffer)).len() > 0,
    ensures
        ({
            let files = zipped(*old(buffer));
            let last = files.last();
            &&& zip_open(*final(buffer)) == (zip_open(*old(buffer)) && last.1.len() + data@.len()
                <= MAX_FILE_LEN)
            &&& zip_open(*final(buffer)) ==> zipped(*final(buffer)) == files.drop_last().push(
                (last.0, last.1 + data@),
            )
        }),
{
    let _ = buffer.writer.write_all(data);
}

/// `ZipWriter::finish` completes an archive, exactly if it was not closed. Its bytes are a function of the
/// files: the time that is noted for each of them is a constant. `ZipArchive::new` finds the written files in
/// them, but for the cases that `reads_back` names.
#[verifier::external_body]
fn zip_finish(buffer: ZipBuffer) -> (r: Option<Vec<u8>>)
    ensures
        r is Some == zip_open(buffer),
        r matches Some(data) ==> data@ == zip_bytes(zipped(buffer)),
        r matches Some(data) ==> is_archive_of(data@, zipped(buffer)),
{
    let mut buffer = buffer;
    buffer.writer.finish().ok().map(|cursor| cursor.into_inner())
}

// ---------------------------------------------------------------------------
// The flate2 crate
// ---------------------------------------------------------------------------

/// The bytes that the `flate2` crate packs data into, in the gzip format.
pub uninterp spec fn gzip_bytes(data: Seq<u8>, level: u32) -> Seq<u8>;

/// The compression level that `flate2` uses where none is asked for.
pub const GZIP_LEVEL: u32 = 6;

/// `GzEncoder` into memory: what comes out is a function of the data and the level. Writing to memory
/// does not fail.
#[verifier::external_body]
fn gzip(data: &[u8], level: u32) -> (r: Option<Vec<u8>>)
    requires
        level <= 9,
    ensures
        r is Some,
        r->0@ == gzip_bytes(data@, level),
{
    let mut encoder = flate2::write::GzEncoder::new(Vec::new(), flate2::Compression::new(level));
    encoder.write_all(data).ok()?;
    encoder.finish().ok()
}

// ---------------------------------------------------------------------------
// Uploads
// ---------------------------------------------------------------------------

/// What was put into an upload.
pub enum UploadContent {
    /// Files, each with its name.
    Files(Seq<(Seq<char>, Seq<u8>)>),
    /// The contents of the files, one after the other.
    Stream(Seq<u8>),
}

/// The content of an upload before the first file: only gzip has no room for names.
pub open spec fn empty_content(format: ArtifactFormat) -> UploadContent {
    if format == ArtifactFormat::Gzip {
        UploadContent::Stream(Seq::empty())
    } else {
        UploadContent::Files(Seq::empty())
    }
}

/// The content after a file was begun.
pub open spec fn with_file(content: UploadContent, name: Seq<char>) -> UploadContent {
    match content {
        UploadContent::Files(files) => UploadContent::Files(
            files.push((name, Seq::<u8>::empty())),
        ),
        UploadContent::Stream(data) => UploadContent::Stream(data),
    }
}

/// The content after data was written.
pub open spec fn with_data(content: UploadContent, more: Seq<u8>) -> UploadContent {
    match content {
        UploadContent::Files(files) => UploadContent::Files(
            files.drop_last().push((files.last().0, files.last().1 + more)),
        ),
        UploadContent::Stream(data) => UploadContent::Stream(data + more),
    }
}

/// Whether `more` can be written: a file must have been begun, and it must not grow too large.
pub open spec fn has_room(content: UploadContent, more: nat) -> bool {
    match content {
        UploadContent::Files(files) => files.len() > 0 && files.last().1.len() + more
            <= MAX_FILE_LEN,
        UploadContent::Stream(_) => true,
    }
}

enum Package {
    Zip(ZipBuffer),
    Gzip(Vec<u8>),
}

/// An upload to gitlab
pub struct Uploader {
    package: Package,
    begun: bool,
    prefixes: Vec<String>,
    masker: Option<Masker>,
    name: Option<String>,
    format: ArtifactFormat,
    artifact_type: String,
    expire_in: Option<String>,
}

/// The name of the file that is uploaded for an artifact.
pub open spec fn upload_file_name(name: Option<Seq<char>>, format: ArtifactFormat) -> Seq<char> {
    let stem = match name {
        Some(n) => n,
        None => "default"@,
    };
    if format == ArtifactFormat::Gzip {
        stem + ".gz"@
    } else {
        stem + ".zip"@
    }
}

/// The view of an optional text.
pub open spec fn optional_text(s: Option<String>) -> Option<Seq<char>> {
    match s {
        Some(t) => Some(t@),
        None => None,
    }
}

impl Uploader {
    /// What was put into the upload.
    pub closed spec fn content(&self) -> UploadContent {
        match self.package {
            Package::Zip(buffer) => UploadContent::Files(zipped(buffer)),
            Package::Gzip(data) => UploadContent::Stream(data@),
        }
    }

    /// Whether everything that was written fits. What does not fit spoils the upload: no further file can
    /// be created, and nothing is uploaded.
    pub closed spec fn fits(&self) -> bool {
        self.package matches Package::Zip(buffer) ==> zip_open(buffer)
    }

    /// The internal consistency of the upload.
    pub closed spec fn wf(&self) -> bool {
        &&& self.package matches Package::Zip(buffer) ==> zip_open(buffer) ==> self.begun == (zipped(
            buffer,
        ).len() > 0)
        &&& self.masker matches Some(m) ==> m.wf()
        &&& (self.format == ArtifactFormat::Gzip) == (self.package is Gzip)
    }

    /// Whether a file was begun.
    pub closed spec fn writing(&self) -> bool {
        self.begun
    }

    /// The token prefixes that masked files look for.
    pub closed spec fn token_prefixes(&self) -> Seq<Seq<char>> {
        text::views(self.prefixes@)
    }

    /// How the file that was begun last is masked: with which prefixes, and after what was written.
    pub closed spec fn masking(&self) -> Option<(Seq<Seq<u8>>, crate::masking::MaskState)> {
        match self.masker {
            Some(m) => Some((m.prefixes(), m.state())),
            None => None,
        }
    }

    /// What the server is told about the artifact: the name of its file, its format, its type and when it
    /// expires.
    pub closed spec fn description(&self) -> (Seq<char>, ArtifactFormat, Seq<char>, Option<Seq<char>>) {
        (
            upload_file_name(optional_text(self.name), self.format),
            self.format,
            self.artifact_type@,
            optional_text(self.expire_in),
        )
    }

    /// An empty upload for an artifact. Files that are masked show no tokens with the given prefixes.
    pub fn new(artifact: &JobArtifact, prefixes: &Vec<String>) -> (r: Self)
        ensures
            r.wf(),
            r.fits(),
            !r.writing(),
            r.content() == empty_content(artifact.artifact_format),
            r.token_prefixes() == text::views(prefixes@),
            r.masking() is None,
            r.description() == (
                upload_file_name(optional_text(artifact.name), artifact.artifact_format),
                artifact.artifact_format,
                artifact.artifact_type@,
                optional_text(artifact.expire_in),
            ),
    {
        let copy = text::clone_strings(prefixes);
        let package = if artifact.artifact_format == ArtifactFormat::Gzip {
            Package::Gzip(Vec::new())
        } else {
            Package::Zip(zip_new())
        };
        let r = Uploader {
            package,
            begun: false,
            prefixes: copy,
            masker: None,
            name: artifact.name.clone(),
            format: artifact.artifact_format,
            artifact_type: artifact.artifact_type.clone(),
            expire_in: artifact.expire_in.clone(),
        };
        assert(r.content() == empty_content(artifact.artifact_format));
        r
    }

    fn begin(&mut self, name: String, masker: Option<Masker>) -> (r: Result<(), ()>)
        requires
            old(self).wf(),
            masker matches Some(m) ==> m.wf(),
        ensures
            r is Ok == old(self).fits(),
            final(self).fits() == old(self).fits(),
            final(self).wf(),
            final(self).writing(),
            r is Ok ==> final(self).content() == with_file(old(self).content(), name@),
            final(self).token_prefixes() == old(self).token_prefixes(),
            final(self).description() == old(self).description(),
            final(self).masking() == (match masker {
                Some(m) => Some((m.prefixes(), m.state())),
                None => None,
            }),
    {
        self.masker = masker;
        self.begun = true;
        match &mut self.package {
            Package::Zip(buffer) => {
                if !zip_start(buffer, name) {
                    return Err(());
                }
            },
            Package::Gzip(_) => {},
        }
        Ok(())
    }

    /// Create a new file to be uploaded. That fails exactly where something that was written did not fit.
    pub fn file(&mut self, name: String) -> (r: Result<(), ()>)
        requires
            old(self).wf(),
        ensures
            r is Ok == old(self).fits(),
            final(self).fits() == old(self).fits(),
            final(self).wf(),
            final(self).writing(),
            r is Ok ==> final(self).content() == with_file(old(self).content(), name@),
            final(self).token_prefixes() == old(self).token_prefixes(),
            final(self).description() == old(self).description(),
            final(self).masking() is None,
    {
        self.begin(name, None)
    }

    /// Create a new file to be uploaded, in which tokens are masked. That fails exactly where something that
    /// was written did not fit.
    pub fn masked_file(&mut self, name: String) -> (r: Result<(), ()>)
        requires
            old(self).wf(),
        ensures
            r is Ok == old(self).fits(),
            final(self).fits() == old(self).fits(),
            final(self).wf(),
            final(self).writing(),
            r is Ok ==> final(self).content() == with_file(old(self).content(), name@),
            final(self).token_prefixes() == old(self).token_prefixes(),
            final(self).description() == old(self).description(),
            final(self).masking() == Some(
                (
                    crate::masking::token_prefixes(old(self).token_prefixes()),
                    crate::masking::mask_start(),
                ),
            ),
    {
        let masker = Masker::new(&self.prefixes);
        self.begin(name, Some(masker))
    }

    /// Appends data to the file that was begun last; the number of bytes that were taken, which is all of
    /// them. Where the file grows beyond what the format allows, the upload fits no longer.
    pub fn write(&mut self, data: &[u8]) -> (n: usize)
        requires
            old(self).wf(),
            old(self).writing(),
        ensures
            n == data@.len(),
            final(self).wf(),
            final(self).writing(),
            final(self).token_prefixes() == old(self).token_prefixes(),
            final(self).description() == old(self).description(),
            ({
                let shown = match old(self).masking() {
                    Some((prefixes, state)) => crate::masking::mask_output(prefixes, state, data@),
                    None => data@,
                };
                &&& final(self).fits() == (old(self).fits() && has_room(
                    old(self).content(),
                    shown.len(),
                ))
                &&& final(self).fits() ==> final(self).content() == with_data(
                    old(self).content(),
                    shown,
                )
            }),
            final(self).masking() == (match old(self).masking() {
                Some((prefixes, state)) => Some(
                    (prefixes, crate::masking::mask_after(prefixes, state, data@)),
                ),
                None => None,
            }),
    {
        let shown = match &mut self.masker {
            Some(masker) => masker.mask(data),
            None => vstd::slice::slice_to_vec(data),
        };
        match &mut self.package {
            Package::Zip(buffer) => {
                zip_write(buffer, shown.as_slice());
            },
            Package::Gzip(stream) => {
                let mut more = shown;
                stream.append(&mut more);
            },
        }
        data.len()
    }

    /// The name of the file that is uploaded.
    pub fn file_name(&self) -> (r: String)
        ensures
            r@ == self.description().0,
    {
        let stem = match &self.name {
            Some(n) => n.clone(),
            None => "default".to_owned(),
        };
        if self.format == ArtifactFormat::Gzip {
            stem.concat(".gz")
        } else {
            stem.concat(".zip")
        }
    }

    /// The format of the artifact.
    pub fn format_name(&self) -> (r: String)
        ensures
            r@ == self.description().1.spec_name(),
    {
        self.format.name()
    }

    /// What the server is told about the artifact, given the name of its file and of its format.
    pub fn info<'a>(&'a self, file_name: &'a str, format_name: &'a str) -> (r: ArtifactInfo<'a>)
        ensures
            r.name@ == file_name@,
            r.artifact_format@ == format_name@,
            r.artifact_type@ == self.description().2,
            match r.expire_in {
                Some(e) => self.description().3 == Some(e@),
                None => self.description().3 is None,
            },
    {
        ArtifactInfo {
            name: file_name,
            artifact_format: format_name,
            artifact_type: self.artifact_type.as_str(),
            expire_in: match &self.expire_in {
                Some(e) => Some(e.as_str()),
                None => None,
            },
        }
    }

    /// The bytes to upload; `None` exactly where something that was written did not fit.
    ///
    /// A zip archive is read back as the files that were written.
    pub fn finish(self) -> (r: Option<Vec<u8>>)
        requires
            self.wf(),
        ensures
            r is Some == self.fits(),
            r matches Some(bytes) ==> match self.content() {
                UploadContent::Files(files) => bytes@ == zip_bytes(files) && is_archive_of(
                    bytes@,
                    files,
                ),
                UploadContent::Stream(data) => bytes@ == gzip_bytes(data, GZIP_LEVEL) && bytes@
                    == gzip_bytes(data, 6),
            },
    {
        match self.package {
            Package::Zip(buffer) => zip_finish(buffer),
            Package::Gzip(data) => gzip(data.as_slice(), GZIP_LEVEL),
        }
    }
}

/// Whether `data` is read back as these files, where an archive of them is.
pub open spec fn is_archive_of(data: Seq<u8>, files: Seq<(Seq<char>, Seq<u8>)>) -> bool {
    reads_back(files) ==> crate::artifact::archived(data) == Ok::<_, Seq<char>>(stored(files))
}

/// What was uploaded as a zip archive is downloaded again: exactly the files that were written are there,
/// each under its name and with its content, which can be read to its end.
pub proof fn law_upload_is_downloaded(data: Seq<u8>, files: Seq<(Seq<char>, Seq<u8>)>, i: int)
    requires
        is_archive_of(data, files),
        reads_back(files),
        forall|j: int, k: int|
            0 <= j < k < files.len() ==> (#[trigger] files[j]).0 != (#[trigger] files[k]).0,
        0 <= i < files.len(),
    ensures
        ({
            let list = crate::artifact::archived(data)->Ok_0;
            &&& crate::artifact::archived(data) is Ok
            &&& list.len() == files.len()
            &&& crate::artifact::find_entry(list, files[i].0) == Some(i)
            &&& list[i].1 == Some((files[i].1, true))
        }),
{
    lemma_find_stored(files, i);
}

/// Files of ordinary sizes and numbers are read back, provided that the name of the last one is short.
pub proof fn law_ordinary_files_read_back(files: Seq<(Seq<char>, Seq<u8>)>)
    requires
        files.len() <= 65535,
        stored_len(files) <= u32::MAX,
        listed_len(files) <= u32::MAX,
        forall|i: int| 0 <= i < files.len() ==> text::byte_len((#[trigger] files[i]).0) <= 65535,
        files.len() > 0 ==> text::byte_len(files.last().0) < 16,
    ensures
        reads_back(files),
{
}

proof fn lemma_find_stored(files: Seq<(Seq<char>, Seq<u8>)>, i: int)
    requires
        forall|j: int, k: int|
            0 <= j < k < files.len() ==> (#[trigger] files[j]).0 != (#[trigger] files[k]).0,
        0 <= i < files.len(),
    ensures
        crate::artifact::find_entry(stored(files), files[i].0) == Some(i),
    decreases files.len(),
{
    let list = stored(files);
    assert(list.last() == list[files.len() - 1]);
    if i < files.len() - 1 {
        assert(files[i].0 != files[files.len() - 1].0);
        assert(list.drop_last() =~= stored(files.drop_last()));
        assert(files.drop_last()[i] == files[i]);
        lemma_find_stored(files.drop_last(), i);
    }
}

/// An upload begins empty: as a list of files, but as a plain stream where it is packed with gzip.
pub proof fn law_uploads_begin_empty()
    ensures
        empty_content(ArtifactFormat::Zip) == UploadContent::Files(Seq::empty()),
        empty_content(ArtifactFormat::Raw) == UploadContent::Files(Seq::empty()),
        empty_content(ArtifactFormat::Gzip) == UploadContent::Stream(Seq::empty()),
{
}

/// What is written after a file was begun goes to that file, and leaves the ones before as they are. A stream
/// has no files: what is written follows what was written before, whatever file it is for.
pub proof fn law_data_goes_to_the_file_begun_last(
    files: Seq<(Seq<char>, Seq<u8>)>,
    stream: Seq<u8>,
    name: Seq<char>,
    data: Seq<u8>,
)
    ensures
        with_data(with_file(UploadContent::Files(files), name), data) == UploadContent::Files(
            files + seq![(name, data)],
        ),
        with_data(with_file(UploadContent::Stream(stream), name), data) == UploadContent::Stream(
            stream + data,
        ),
{
    let begun = files.push((name, Seq::<u8>::empty()));
    assert(begun.drop_last() =~= files);
    assert(Seq::<u8>::empty() + data =~= data);
    assert(files.push((name, data)) =~= files + seq![(name, data)]);
}

/// Data that is written in pieces is the same as data that is written at once.
pub proof fn law_data_can_be_written_in_pieces(content: UploadContent, a: Seq<u8>, b: Seq<u8>)
    ensures
        with_data(with_data(content, a), b) == with_data(content, a + b),
{
    match content {
        UploadContent::Files(files) => {
            let once = files.drop_last().push((files.last().0, files.last().1 + a));
            assert(once.drop_last() =~= files.drop_last());
            assert((files.last().1 + a) + b =~= files.last().1 + (a + b));
        },
        UploadContent::Stream(data) => {
            assert((data + a) + b =~= data + (a + b));
        },
    }
}

/// A file in an archive holds less than 4 GiB, and data is written to a file only; a stream takes any data.
pub proof fn law_files_are_limited(files: Seq<(Seq<char>, Seq<u8>)>, stream: Seq<u8>, more: nat)
    ensures
        has_room(UploadContent::Stream(stream), more),
        has_room(UploadContent::Files(files), more) <==> files.len() > 0 && files.last().1.len() + more
            < 0x1_0000_0000,
{
}

/// The uploaded file is named after the artifact, or `default` where that has no name, and after its format.
pub proof fn law_uploads_are_named(name: Seq<char>)
    ensures
        upload_file_name(Some(name), ArtifactFormat::Zip) == name + ".zip"@,
        upload_file_name(Some(name), ArtifactFormat::Raw) == name + ".zip"@,
        upload_file_name(Some(name), ArtifactFormat::Gzip) == name + ".gz"@,
        upload_file_name(None, ArtifactFormat::Zip) == "default.zip"@,
        upload_file_name(None, ArtifactFormat::Raw) == "default.zip"@,
        upload_file_name(None, ArtifactFormat::Gzip) == "default.gz"@,
{
    reveal_strlit("default");
    reveal_strlit(".zip");
    reveal_strlit(".gz");
    reveal_strlit("default.zip");
    reveal_strlit("default.gz");
    assert("default"@ + ".zip"@ =~= "default.zip"@);
    assert("default"@ + ".gz"@ =~= "default.gz"@);
}

/// A text that is given is known by its characters.
pub proof fn law_text_is_seen(text: String)
    ensures
        optional_text(Some(text)) == Some(text@),
        optional_text(None) is None,
{
}

} // verus!
