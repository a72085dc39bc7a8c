//! Helpers for artifacts downloaded from gitlab
use crate::client::Error;
use std::io::Read;
use vstd::prelude::*;

verus! {

#[verifier::external_type_specification]
#[verifier::external_body]
#[verifier::reject_recursive_types(T)]
pub struct ExCursor<T>(std::io::Cursor<T>);

#[verifier::external_type_specification]
#[verifier::external_body]
#[verifier::reject_recursive_types(R)]
pub struct ExZipArchive<R>(zip::ZipArchive<R>);

#[verifier::external_type_specification]
#[verifier::external_body]
pub struct ExZipFile<'a>(zip::read::ZipFile<'a>);

// ---------------------------------------------------------------------------
// The zip crate
// ---------------------------------------------------------------------------

/// A file in an archive: its name and, where it can be opened, its content and whether that is sound. A
/// sound content can be read to its end; any other one gives an error on the way.
pub type EntryView = (Seq<char>, Option<(Seq<u8>, bool)>);

/// The files that the `zip` crate finds in some bytes, in the order of the archive: the name of each, and
/// its content and whether that is sound, where it can be opened. Else the text of the error that the
/// crate reports.
pub uninterp spec fn archived(data: Seq<u8>) -> Result<
    Seq<(Seq<char>, Option<(Seq<u8>, bool)>)>,
    Seq<char>,
>;

/// The files in an opened archive: the name of each, and its content and whether that is sound, where it
/// can be opened.
pub uninterp spec fn entries(archive: zip::ZipArchive<std::io::Cursor<Vec<u8>>>) -> Seq<
    (Seq<char>, Option<(Seq<u8>, bool)>),
>;

/// The name of an opened file of an archive.
pub uninterp spec fn entry_name(file: zip::read::ZipFile<'_>) -> Seq<char>;

/// What an opened file of an archive still has to give.
pub uninterp spec fn unread(file: zip::read::ZipFile<'_>) -> Seq<u8>;

/// Whether an opened file of an archive can be read to its end: it is decoded without an error, and its
/// content has the checksum that the archive gives.
pub uninterp spec fn sound(file: zip::read::ZipFile<'_>) -> bool;

/// The position of the last file with the given name.
pub open spec fn find_entry(list: Seq<EntryView>, name: Seq<char>) -> Option<int>
    decreases list.len(),
{
    if list.len() == 0 {
        None
    } else if list.last().0 == name {
        Some(list.len() - 1)
    } else {
        find_entry(list.drop_last(), name)
    }
}

/// `ZipArchive::new` on bytes in memory: which files it finds, or how it fails, is a function of the
/// bytes.
#[verifier::external_body]
fn open_archive(data: Vec<u8>) -> (r: Result<zip::ZipArchive<std::io::Cursor<Vec<u8>>>, String>)
    ensures
        match r {
            Ok(archive) => archived(data@) == Ok::<_, Seq<char>>(entries(archive)),
            Err(reason) => archived(data@) == Err::<Seq<EntryView>, _>(
                reason@,
            ),
        },
{
    zip::ZipArchive::new(std::io::Cursor::new(data)).map_err(|e| e.to_string())
}

/// `ZipArchive::len` is the number of files.
#[verifier::external_body]
fn archive_len(archive: &zip::ZipArchive<std::io::Cursor<Vec<u8>>>) -> (r: usize)
    ensures
        r == entries(*archive).len(),
{
    archive.len()
}

/// `ZipArchive::file_names` gives each name once, in no particular order.
#[verifier::external_body]
fn archive_names(archive: &zip::ZipArchive<std::io::Cursor<Vec<u8>>>) -> (r: Vec<String>)
    ensures
        forall|i: int, j: int| 0 <= i < j < r@.len() ==> r@[i]@ != r@[j]@,
        forall|i: int|
            0 <= i < r@.len() ==> find_entry(entries(*archive), (#[trigger] r@[i])@) is Some,
        forall|name: Seq<char>| #[trigger]
            find_entry(entries(*archive), name) is Some ==> exists|i: int|
                0 <= i < r@.len() && (#[trigger] r@[i])@ == name,
{
    archive.file_names().map(|name| name.to_owned()).collect()
}

/// Whether `ZipArchive::by_index_decrypt` refuses an empty password for file number `i`. Such a file
/// cannot be opened without a password.
#[verifier::external_body]
fn index_locked(archive: &mut zip::ZipArchive<std::io::Cursor<Vec<u8>>>, i: usize) -> (r: bool)
    ensures
        entries(*final(archive)) == entries(*old(archive)),
        r == locked(*old(archive)).contains(i as int),
        locked(*final(archive)) == locked(*old(archive)),
        r ==> i < entries(*old(archive)).len() ==> entries(*old(archive))[i as int].1 is None,
{
    matches!(archive.by_index_decrypt(i, &[]), Ok(Err(_)))
}

/// The numbers of the files for which the `zip` crate refuses an empty password.
pub uninterp spec fn locked(archive: zip::ZipArchive<std::io::Cursor<Vec<u8>>>) -> Set<int>;

/// `ZipArchive::by_index` opens file number `i`, at its start, where that file exists and can be opened.
/// It panics on files that ask for a password without being encrypted, which are locked.
#[verifier::external_body]
fn open_index<'a>(archive: &'a mut zip::ZipArchive<std::io::Cursor<Vec<u8>>>, i: usize) -> (r:
    Option<zip::read::ZipFile<'a>>)
    requires
        !locked(*old(archive)).contains(i as int),
    ensures
        entries(*final(archive)) == entries(*old(archive)),
        ({
            let list = entries(*old(archive));
            &&& r is Some == (i < list.len() && list[i as int].1 is Some)
            &&& r matches Some(file) ==> {
                &&& entry_name(file) == list[i as int].0
                &&& (unread(file), sound(file)) == list[i as int].1->0
            }
        }),
{
    archive.by_index(i).ok()
}

/// Whether `ZipArchive::by_name_decrypt` refuses an empty password for the last file with this name.
#[verifier::external_body]
fn name_locked(archive: &mut zip::ZipArchive<std::io::Cursor<Vec<u8>>>, name: &str) -> (r: bool)
    ensures
        entries(*final(archive)) == entries(*old(archive)),
        locked(*final(archive)) == locked(*old(archive)),
        match find_entry(entries(*old(archive)), name@) {
            Some(i) => {
                &&& r == locked(*old(archive)).contains(i)
                &&& r ==> entries(*old(archive))[i].1 is None
            },
            None => !r,
        },
{
    matches!(archive.by_name_decrypt(name, &[]), Ok(Err(_)))
}

/// `ZipArchive::by_name` opens the last file with this name, at its start, where there is one and it can
/// be opened. It panics on files that ask for a password without being encrypted, which are locked.
#[verifier::external_body]
fn open_name<'a>(archive: &'a mut zip::ZipArchive<std::io::Cursor<Vec<u8>>>, name: &str) -> (r:
    Option<zip::read::ZipFile<'a>>)
    requires
        find_entry(entries(*old(archive)), name@) matches Some(i) ==> !locked(
            *old(archive),
        ).contains(i),
    ensures
        entries(*final(archive)) == entries(*old(archive)),
        ({
            let list = entries(*old(archive));
            match find_entry(list, name@) {
                Some(i) => {
                    &&& r is Some == list[i].1 is Some
                    &&& r matches Some(file) ==> {
                        &&& entry_name(file) == name@
                        &&& (unread(file), sound(file)) == list[i].1->0
                    }
                },
                None => r is None,
            }
        }),
{
    archive.by_name(name).ok()
}

/// `ZipFile::name`.
#[verifier::external_body]
fn file_name<'b>(file: &'b zip::read::ZipFile<'_>) -> (r: &'b str)
    ensures
        r@ == entry_name(*file),
{
    file.name()
}

/// Whether a name is safe as a path: it holds no NUL, is relative and never leads outside.
pub open spec fn is_enclosed(name: Seq<char>) -> bool {
    &&& !name.contains('\0')
    &&& !crate::paths::is_absolute(name)
    &&& crate::paths::stays_inside(crate::paths::path_parts(name))
}

/// `ZipFile::enclosed_name` gives the name back where it is safe as a path. Holds where `/` separates the
/// parts of a path.
#[verifier::external_body]
fn enclosed_name<'b>(file: &'b zip::read::ZipFile<'_>) -> (r: Option<&'b str>)
    ensures
        r is Some == is_enclosed(entry_name(*file)),
        r matches Some(s) ==> s@ == entry_name(*file),
{
    file.enclosed_name().and_then(|path| path.to_str())
}

/// Reads from a `ZipFile` into a buffer. The bytes come in order; what is in the rest of the buffer is not
/// stated. Reading a sound file does not fail, and gives no bytes only at the end. Reading any other file
/// fails before its end is reached, as decoding fails or the checksum does not match. At which read, with
/// what text, and what can be read after that, is not stated.
#[verifier::external_body]
fn read_file(file: &mut zip::read::ZipFile<'_>, buf: &mut [u8]) -> (r: Result<usize, String>)
    ensures
        entry_name(*final(file)) == entry_name(*old(file)),
        sound(*final(file)) == sound(*old(file)),
        final(buf)@.len() == old(buf)@.len(),
        sound(*old(file)) ==> r is Ok,
        r matches Ok(n) ==> {
            &&& n <= old(buf)@.len()
            &&& n <= unread(*old(file)).len()
            &&& final(buf)@.take(n as int) == unread(*old(file)).take(n as int)
            &&& unread(*final(file)) == unread(*old(file)).skip(n as int)
            &&& n == 0 ==> old(buf)@.len() == 0 || (sound(*old(file)) && unread(*old(file)).len()
                == 0)
        },
{
    file.read(buf).map_err(|e| e.to_string())
}

// ---------------------------------------------------------------------------
// Artifacts
// ---------------------------------------------------------------------------

/// A file in a gitlab artifact
///
/// Most importantly its content can be read out
pub struct ArtifactFile<'a> {
    file: zip::read::ZipFile<'a>,
}

impl<'a> ArtifactFile<'a> {
    /// The name of the file.
    pub closed spec fn spec_name(&self) -> Seq<char> {
        entry_name(self.file)
    }

    /// What was not read yet.
    pub closed spec fn rest(&self) -> Seq<u8> {
        unread(self.file)
    }

    /// Whether the content can be read to its end.
    pub closed spec fn is_sound(&self) -> bool {
        sound(self.file)
    }

    /// Get the name of the file
    pub fn name(&self) -> (r: &str)
        ensures
            r@ == self.spec_name(),
    {
        file_name(&self.file)
    }

    /// Get the safe path of the file
    ///
    /// The path will be safe to use, that is to say it contains no NUL bytes and will be a
    /// relative path that doesn't go outside of the root.
    pub fn path(&self) -> (r: Option<&str>)
        ensures
            r is Some == is_enclosed(self.spec_name()),
            r matches Some(s) ==> s@ == self.spec_name(),
    {
        enclosed_name(&self.file)
    }

    /// Reads the next bytes of the content into a buffer, and tells how many; none come only at the end.
    /// That fails only where the content is not sound, of which the end is never reached.
    pub fn read(&mut self, buf: &mut [u8]) -> (r: Result<usize, String>)
        ensures
            final(self).spec_name() == old(self).spec_name(),
            final(self).is_sound() == old(self).is_sound(),
            final(buf)@.len() == old(buf)@.len(),
            old(self).is_sound() ==> r is Ok,
            r matches Ok(n) ==> {
                &&& n <= old(buf)@.len()
                &&& old(self).rest() == final(buf)@.take(n as int) + final(self).rest()
                &&& n == 0 ==> old(buf)@.len() == 0 || (old(self).is_sound() && old(
                    self,
                ).rest().len() == 0)
            },
    {
        let r = read_file(&mut self.file, buf);
        proof {
            if r is Ok {
                assert(old(self).rest() =~= buf@.take(r->Ok_0 as int) + self.rest());
            }
        }
        r
    }
}

impl<'a> ArtifactFile<'a> {
    /// Appends all that was not read yet to `data`. That fails exactly where the content is not sound;
    /// what was read before the failure is appended all the same.
    pub fn read_to_end(&mut self, data: &mut Vec<u8>) -> (r: Result<(), String>)
        ensures
            final(self).spec_name() == old(self).spec_name(),
            final(self).is_sound() == old(self).is_sound(),
            r is Ok == old(self).is_sound(),
            r is Ok ==> {
                &&& final(data)@ == old(data)@ + old(self).rest()
                &&& final(self).rest().len() == 0
            },
            r is Err ==> exists|n: int|
                0 <= n <= old(self).rest().len() && final(data)@ == old(data)@
                    + #[trigger] old(self).rest().take(n),
    {
        let mut buf: [u8; 4096] = [0; 4096];
        assert(data@ + self.rest() =~= old(data)@ + old(self).rest());
        loop
            invariant_except_break
                data@ + self.rest() == old(data)@ + old(self).rest(),
                old(data)@.len() <= data@.len(),
            invariant
                self.spec_name() == old(self).spec_name(),
                self.is_sound() == old(self).is_sound(),
            ensures
                self.is_sound(),
                data@ == old(data)@ + old(self).rest(),
                self.rest().len() == 0,
            decreases self.rest().len(),
        {
            let ghost before = data@;
            let ghost left = self.rest();
            match self.read(&mut buf) {
                Ok(n) => {
                    assert(left.len() == n + self.rest().len());
                    if n == 0 {
                        assert(data@ + self.rest() =~= data@);
                        break;
                    }
                    let mut i: usize = 0;
                    while i < n
                        invariant
                            i <= n <= buf@.len(),
                            data@ == before + buf@.take(i as int),
                            old(data)@.len() <= before.len(),
                        decreases n - i,
                    {
                        data.push(buf[i]);
                        assert(data@ =~= before + buf@.take(i + 1));
                        i += 1;
                    }
                    assert(data@ + self.rest() =~= before + left);
                },
                Err(e) => {
                    proof {
                        let n = data@.len() - old(data)@.len();
                        let whole = old(data)@ + old(self).rest();
                        assert((data@ + left).len() == whole.len());
                        assert(data@ =~= (data@ + left).take(data@.len() as int));
                        assert(whole.take(data@.len() as int) =~= old(data)@ + old(
                            self,
                        ).rest().take(n));
                    }
                    return Err(e);
                },
            }
        }
        Ok(())
    }
}

/// An artifact downloaded from gitlab
///
/// The artifact holds a set of files which can be read out one by one
pub struct Artifact {
    zip: zip::ZipArchive<std::io::Cursor<Vec<u8>>>,
}

impl Artifact {
    /// The files in the artifact: the name of each, and its content and whether that is sound, where it can
    /// be opened.
    pub closed spec fn files(&self) -> Seq<EntryView> {
        entries(self.zip)
    }

    /// Opens an artifact; fails where the data is no zip archive.
    pub fn new(data: Vec<u8>) -> (r: Result<Self, Error>)
        ensures
            match r {
                Ok(artifact) => archived(data@) == Ok::<_, Seq<char>>(artifact.files()),
                Err(Error::ZipFile(reason)) => archived(data@) == Err::<
                    Seq<EntryView>,
                    _,
                >(reason@),
                Err(_) => false,
            },
    {
        match open_archive(data) {
            Ok(zip) => Ok(Artifact { zip }),
            Err(reason) => Err(Error::ZipFile(reason)),
        }
    }

    /// The files names inside the artifacts, each once and in no particular order
    ///
    /// The returned file name isn't sanatized in any way and should *not* be used as a path on the
    /// filesystem. To get a safe path of a given file use [`ArtifactFile::path`]
    pub fn file_names(&self) -> (r: Vec<String>)
        ensures
            forall|i: int, j: int| 0 <= i < j < r@.len() ==> r@[i]@ != r@[j]@,
            forall|i: int|
                0 <= i < r@.len() ==> find_entry(self.files(), (#[trigger] r@[i])@) is Some,
            forall|name: Seq<char>| #[trigger]
                find_entry(self.files(), name) is Some ==> exists|i: int|
                    0 <= i < r@.len() && (#[trigger] r@[i])@ == name,
    {
        archive_names(&self.zip)
    }

    /// Get a file in the artifact by name
    pub fn file<'a>(&'a mut self, name: &str) -> (r: Option<ArtifactFile<'a>>)
        ensures
            final(self).files() == old(self).files(),
            match find_entry(old(self).files(), name@) {
                Some(i) => {
                    &&& r is Some == old(self).files()[i].1 is Some
                    &&& r matches Some(file) ==> {
                        &&& file.spec_name() == name@
                        &&& (file.rest(), file.is_sound()) == old(self).files()[i].1->0
                    }
                },
                None => r is None,
            },
    {
        if name_locked(&mut self.zip, name) {
            return None;
        }
        match open_name(&mut self.zip, name) {
            Some(file) => Some(ArtifactFile { file }),
            None => None,
        }
    }

    /// Get a file in the artifact by index
    pub fn by_index<'a>(&'a mut self, i: usize) -> (r: Option<ArtifactFile<'a>>)
        ensures
            final(self).files() == old(self).files(),
            r is Some == (i < old(self).files().len() && old(self).files()[i as int].1 is Some),
            r matches Some(file) ==> {
                &&& file.spec_name() == old(self).files()[i as int].0
                &&& (file.rest(), file.is_sound()) == old(self).files()[i as int].1->0
            },
    {
        if index_locked(&mut self.zip, i) {
            return None;
        }
        match open_index(&mut self.zip, i) {
            Some(file) => Some(ArtifactFile { file }),
            None => None,
        }
    }

    /// Checks whether the artifact has no files
    pub fn is_empty(&self) -> (r: bool)
        ensures
            r == (self.files().len() == 0),
    {
        archive_len(&self.zip) == 0
    }

    /// The number of files in the artifacts
    pub fn len(&self) -> (r: usize)
        ensures
            r == self.files().len(),
    {
        archive_len(&self.zip)
    }
}

/// What a name finds is a file with that name.
pub proof fn law_found_by_name(list: Seq<EntryView>, name: Seq<char>)
    ensures
        find_entry(list, name) matches Some(i) ==> 0 <= i < list.len() && list[i].0 == name,
    decreases list.len(),
{
    if list.len() > 0 && list.last().0 != name {
        law_found_by_name(list.drop_last(), name);
    }
}

/// Of several files with one name, the last one is found; a name that no file has finds none.
pub proof fn law_last_file_is_found(list: Seq<EntryView>, name: Seq<char>, i: int)
    requires
        -1 <= i < list.len(),
        i >= 0 ==> list[i].0 == name,
        forall|j: int| i < j < list.len() ==> (#[trigger] list[j]).0 != name,
    ensures
        find_entry(list, name) == (if i >= 0 {
            Some(i)
        } else {
            None
        }),
    decreases list.len(),
{
    if i < list.len() - 1 {
        let before = list.drop_last();
        assert(list.last() == list[list.len() - 1]);
        assert forall|j: int| i < j < before.len() implies (#[trigger] before[j]).0 != name by {
            assert(before[j] == list[j]);
        }
        law_last_file_is_found(before, name, i);
    }
}

} // verus!
