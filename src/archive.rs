//! In-memory zip containers: the member table of a template, and the zip
//! reader and writer that fill it and pack it again.
use vstd::prelude::*;
use crate::error::DocxError;
use crate::text::str_equal;

verus! {

#[verifier::external_type_specification]
#[verifier::external_body]
#[verifier::reject_recursive_types(R)]
pub struct ExZipArchive<R>(zip::ZipArchive<R>);

#[verifier::external_type_specification]
#[verifier::external_body]
#[verifier::reject_recursive_types(T)]
pub struct ExCursor<T>(std::io::Cursor<T>);


/// A zip archive read from bytes held in memory.
pub type ArchiveReader = zip::ZipArchive<std::io::Cursor<Vec<u8>>>;

/// A zip archive being written into memory. The writer's type carries
/// `Write + Seek` bounds that cannot be declared here, so it is held in a
/// field that only the writing wrappers below touch.
#[verifier::external_body]
pub struct ArchiveWriter {
    inner: zip::ZipWriter<std::io::Cursor<Vec<u8>>>,
}

/// One member of an archive as it reads: `None` where it cannot be opened,
/// else its name and, where they can be read, its decompressed bytes.
pub type MemberRead = Option<(Seq<char>, Option<Seq<u8>>)>;

/// The members of the zip container in `data`, in directory order; `None`
/// where the bytes are not a readable zip container.
pub uninterp spec fn zip_members_of(data: Seq<u8>) -> Option<Seq<MemberRead>>;

/// The members that an opened archive holds, as `zip_members_of` gives them.
pub uninterp spec fn archive_members(a: ArchiveReader) -> Seq<MemberRead>;

/// Relies on `zip::ZipArchive::new` over a `Cursor`: reads the central
/// directory of the bytes; the archive holds the members of those bytes.
#[verifier::external_body]
pub(crate) fn open_archive(data: Vec<u8>) -> (r: Result<ArchiveReader, zip::result::ZipError>)
    ensures
        r is Ok <==> zip_members_of(data@) is Some,
        r matches Ok(a) ==> zip_members_of(data@) == Some(archive_members(a)),
{
    zip::ZipArchive::new(std::io::Cursor::new(data))
}

/// Relies on `zip::ZipArchive::len`: the number of members.
#[verifier::external_body]
pub(crate) fn archive_len(a: &ArchiveReader) -> (r: usize)
    ensures
        r == archive_members(*a).len(),
{
    a.len()
}

/// Relies on `zip::ZipArchive::by_index_decrypt` with an empty password,
/// `ZipFile::name` and `Read::read_to_end`: the name of member `i` and its
/// decompressed bytes, or the zip error that keeps it from being opened (a
/// member that the empty password does not open gives the error that
/// `by_index` gives an encrypted member).
/// Reading does not change the members.
#[verifier::external_body]
pub(crate) fn read_member(a: &mut ArchiveReader, i: usize) -> (r: Result<
    (String, Result<Vec<u8>, std::io::Error>),
    zip::result::ZipError,
>)
    ensures
        archive_members(*final(a)) == archive_members(*old(a)),
        r matches Ok((n, Ok(b))) ==> i < archive_members(*old(a)).len() && archive_members(*old(a))[i as int]
            == Some((n@, Some(b@))),
        r matches Ok((n, Err(_))) ==> i < archive_members(*old(a)).len() && archive_members(*old(a))[i as int]
            == Some((n@, None::<Seq<u8>>)),
        r is Err && i < archive_members(*old(a)).len() ==> archive_members(*old(a))[i as int] is None,
{
    let mut entry = match a.by_index_decrypt(i, b"") {
        Ok(Ok(f)) => f,
        Ok(Err(_)) => {
            return Err(
                zip::result::ZipError::UnsupportedArchive(zip::result::ZipError::PASSWORD_REQUIRED),
            )
        },
        Err(e) => return Err(e),
    };
    let mut buffer = Vec::new();
    let read = std::io::Read::read_to_end(&mut entry, &mut buffer).map(|_| buffer);
    Ok((entry.name().to_string(), read))
}

/// The members written so far, in order: name, unix permission bits, bytes.
pub uninterp spec fn written_members(w: ArchiveWriter) -> Seq<(Seq<char>, u32, Seq<u8>)>;

/// The writer still accepts members (it is neither finished nor closed by a
/// failed write).
pub uninterp spec fn writer_open(w: ArchiveWriter) -> bool;

/// The bytes of a finished archive whose members, deflated, are these.
pub uninterp spec fn deflated_zip_of(members: Seq<(Seq<char>, u32, Seq<u8>)>) -> Seq<u8>;

/// Members up to this many bytes stay, compressed or not, below the 4 GiB
/// that a member without the large-file option may take.
pub const MEMBER_BYTES_BOUND: usize = 0x7fff_ffff;

/// The member last started, if any, is within the member bound.
pub open spec fn last_member_fits(ms: Seq<(Seq<char>, u32, Seq<u8>)>) -> bool {
    ms.len() > 0 ==> ms.last().2.len() <= MEMBER_BYTES_BOUND
}

/// Relies on `zip::ZipWriter::new` over an empty `Cursor`: nothing written yet.
#[verifier::external_body]
pub(crate) fn new_writer() -> (r: ArchiveWriter)
    ensures
        written_members(r) == Seq::<(Seq<char>, u32, Seq<u8>)>::empty(),
        writer_open(r),
{
    ArchiveWriter { inner: zip::ZipWriter::new(std::io::Cursor::new(Vec::new())) }
}

/// Relies on `zip::ZipWriter::start_file`, with deflate compression and the
/// given unix permission bits: the member before is finished and a new, empty
/// member follows it. Writing into memory cannot fail, so it succeeds on an
/// open writer whose last member is within the bound.
#[verifier::external_body]
pub(crate) fn start_member(w: &mut ArchiveWriter, name: &str, permissions: u32) -> (r: Result<
    (),
    zip::result::ZipError,
>)
    ensures
        writer_open(*old(w)) && last_member_fits(written_members(*old(w))) ==> r is Ok,
        r is Ok ==> writer_open(*final(w)) && written_members(*final(w)) == written_members(*old(w)).push(
            (name@, permissions, Seq::<u8>::empty()),
        ),
{
    let options = zip::write::FileOptions::default().compression_method(
        zip::CompressionMethod::Deflated,
    ).unix_permissions(permissions);
    w.inner.start_file(name, options)
}

/// Relies on `Write::write_all` of `zip::ZipWriter`: the bytes go to the end
/// of the member last started; it succeeds on an open writer while that
/// member stays within the bound.
#[verifier::external_body]
pub(crate) fn write_member(w: &mut ArchiveWriter, bytes: &[u8]) -> (r: Result<(), std::io::Error>)
    requires
        written_members(*old(w)).len() > 0,
    ensures
        writer_open(*old(w)) && written_members(*old(w)).last().2.len() + bytes@.len() <= MEMBER_BYTES_BOUND
            ==> r is Ok,
        r is Ok ==> writer_open(*final(w)) && written_members(*final(w)) == written_members(
            *old(w),
        ).drop_last().push(
            (
                written_members(*old(w)).last().0,
                written_members(*old(w)).last().1,
                written_members(*old(w)).last().2 + bytes@,
            ),
        ),
{
    std::io::Write::write_all(&mut w.inner, bytes)
}

/// Relies on `zip::ZipWriter::finish` and `Cursor::into_inner`: the bytes of
/// the finished archive; it succeeds on an open writer whose last member is
/// within the bound.
#[verifier::external_body]
pub(crate) fn finish_writer(w: &mut ArchiveWriter) -> (r: Result<Vec<u8>, zip::result::ZipError>)
    ensures
        writer_open(*old(w)) && last_member_fits(written_members(*old(w))) ==> r is Ok,
        r matches Ok(b) ==> b@ == deflated_zip_of(written_members(*old(w))),
{
    w.inner.finish().map(|c| c.into_inner())
}

/// The members of a container in order, each a name and its bytes.
pub open spec fn member_names(entries: Seq<(String, Vec<u8>)>) -> Seq<Seq<char>> {
    entries.map_values(|e: (String, Vec<u8>)| e.0@)
}

/// No two members share a name.
pub open spec fn names_unique(entries: Seq<(String, Vec<u8>)>) -> bool {
    forall|i: int, j: int|
        0 <= i < j < entries.len() ==> #[trigger] entries[i].0@ != #[trigger] entries[j].0@
}

/// The index of the member with a given name, if there is one.
pub open spec fn position_of(entries: Seq<(String, Vec<u8>)>, name: Seq<char>) -> Option<int> {
    if exists|i: int| 0 <= i < entries.len() && #[trigger] entries[i].0@ == name {
        Some(choose|i: int| 0 <= i < entries.len() && #[trigger] entries[i].0@ == name)
    } else {
        None
    }
}

/// The member table of an archive: names mapped to bytes, in the order in
/// which they were first read.
pub struct FileMap {
    pub entries: Vec<(String, Vec<u8>)>,
}

impl FileMap {
    pub open spec fn wf(&self) -> bool {
        names_unique(self.entries@)
    }

    /// The bytes of each member, by name.
    pub open spec fn view_map(&self) -> Map<Seq<char>, Seq<u8>> {
        Map::new(
            |n: Seq<char>| exists|i: int| 0 <= i < self.entries@.len() && #[trigger] self.entries@[i].0@ == n,
            |n: Seq<char>| self.entries@[position_of(self.entries@, n)->Some_0].1@,
        )
    }

    pub fn new() -> (r: FileMap)
        ensures
            r.wf(),
            r.entries@.len() == 0,
    {
        FileMap { entries: Vec::new() }
    }

    /// The index of the member with this name, if any.
    pub fn find(&self, name: &str) -> (r: Option<usize>)
        ensures
            match r {
                Some(i) => i < self.entries@.len() && self.entries@[i as int].0@ == name@,
                None => forall|i: int| 0 <= i < self.entries@.len() ==> #[trigger] self.entries@[i].0@ != name@,
            },
    {
        let mut i: usize = 0;
        while i < self.entries.len()
            invariant
                i <= self.entries@.len(),
                forall|k: int| 0 <= k < i ==> #[trigger] self.entries@[k].0@ != name@,
            decreases self.entries.len() - i,
        {
            if str_equal(self.entries[i].0.as_str(), name) {
                return Some(i);
            }
            i = i + 1;
        }
        None
    }

    /// The bytes of the member with this name, if any.
    pub fn get(&self, name: &str) -> (r: Option<&Vec<u8>>)
        requires
            self.wf(),
        ensures
            match r {
                Some(b) => self.view_map().contains_key(name@) && b@ == self.view_map()[name@],
                None => !self.view_map().contains_key(name@),
            },
    {
        match self.find(name) {
            Some(i) => {
                proof {
                    let p = position_of(self.entries@, name@)->Some_0;
                    assert(self.entries@[i as int].0@ == name@);
                    assert(p == i);
                }
                Some(&self.entries[i].1)
            },
            None => None,
        }
    }

    /// Sets the bytes of a member: a member of that name keeps its place and
    /// takes the new bytes; otherwise the member is added at the end.
    pub fn insert(&mut self, name: String, bytes: Vec<u8>)
        requires
            old(self).wf(),
        ensures
            final(self).wf(),
            final(self).view_map() == old(self).view_map().insert(name@, bytes@),
            member_names(final(self).entries@) == (if old(self).view_map().contains_key(name@) {
                member_names(old(self).entries@)
            } else {
                member_names(old(self).entries@).push(name@)
            }),
    {
        let ghost pre = self.entries@;
        match self.find(name.as_str()) {
            Some(i) => {
                self.entries.set(i, (name, bytes));
                proof {
                    let post = self.entries@;
                    assert(member_names(post) =~= member_names(pre));
                    assert(old(self).view_map().contains_key(name@));
                    assert forall|n: Seq<char>| #[trigger] self.view_map().contains_key(n)
                        == old(self).view_map().insert(name@, bytes@).contains_key(n) by {
                        if old(self).view_map().contains_key(n) {
                            let k = choose|k: int| 0 <= k < pre.len() && #[trigger] pre[k].0@ == n;
                            if k == i {
                                assert(post[k].0@ == n);
                            } else {
                                assert(post[k] == pre[k]);
                            }
                        }
                        if self.view_map().contains_key(n) {
                            let k = choose|k: int| 0 <= k < post.len() && #[trigger] post[k].0@ == n;
                            if k != i {
                                assert(post[k] == pre[k]);
                            }
                        }
                    }
                    assert forall|n: Seq<char>| #[trigger] self.view_map().contains_key(n)
                        implies self.view_map()[n] == old(self).view_map().insert(name@, bytes@)[n] by {
                        let p = position_of(post, n)->Some_0;
                        assert(post[p].0@ == n);
                        if n == name@ {
                            assert(post[i as int].0@ == n);
                        } else {
                            assert(p != i);
                            assert(pre[p] == post[p]);
                            let q = position_of(pre, n)->Some_0;
                            assert(pre[q].0@ == n);
                            assert(pre[q] == post[q]) by {
                                if q == i {
                                    assert(pre[i as int].0@ == name@);
                                }
                            }
                        }
                    }
                    assert(self.view_map() =~= old(self).view_map().insert(name@, bytes@));
                }
            },
            None => {
                self.entries.push((name, bytes));
                proof {
                    let post = self.entries@;
                    let last = pre.len() as int;
                    assert(member_names(post) =~= member_names(pre).push(name@));
                    assert(!old(self).view_map().contains_key(name@));
                    assert forall|n: Seq<char>| #[trigger] self.view_map().contains_key(n)
                        == old(self).view_map().insert(name@, bytes@).contains_key(n) by {
                        if old(self).view_map().contains_key(n) {
                            let k = choose|k: int| 0 <= k < pre.len() && #[trigger] pre[k].0@ == n;
                            assert(post[k] == pre[k]);
                        }
                        if n == name@ {
                            assert(post[last].0@ == n);
                        }
                        if self.view_map().contains_key(n) && n != name@ {
                            let k = choose|k: int| 0 <= k < post.len() && #[trigger] post[k].0@ == n;
                            assert(k != last);
                            assert(post[k] == pre[k]);
                        }
                    }
                    assert forall|n: Seq<char>| #[trigger] self.view_map().contains_key(n)
                        implies self.view_map()[n] == old(self).view_map().insert(name@, bytes@)[n] by {
                        let p = position_of(post, n)->Some_0;
                        assert(post[p].0@ == n);
                        if n == name@ {
                            assert(post[last].0@ == n);
                            assert(p == last);
                        } else {
                            assert(p != last);
                            assert(pre[p] == post[p]);
                            let q = position_of(pre, n)->Some_0;
                            assert(pre[q].0@ == n);
                            assert(post[q] == pre[q]);
                        }
                    }
                    assert(self.view_map() =~= old(self).view_map().insert(name@, bytes@));
                }
            },
        }
    }

    pub fn len(&self) -> (r: usize)
        ensures
            r == self.entries@.len(),
    {
        self.entries.len()
    }
}

/// Every member can be opened.
pub open spec fn all_open(members: Seq<MemberRead>) -> bool {
    forall|i: int| 0 <= i < members.len() ==> (#[trigger] members[i]) is Some
}

/// The member table of a list of members: each member whose bytes can be
/// read, in order, a later member of a name replacing an earlier one.
pub open spec fn members_map(members: Seq<MemberRead>) -> Map<Seq<char>, Seq<u8>>
    decreases members.len(),
{
    if members.len() == 0 {
        Map::empty()
    } else {
        let m = members_map(members.drop_last());
        match members.last() {
            Some((n, Some(b))) => m.insert(n, b),
            _ => m,
        }
    }
}

/// Reads every member of a zip container held in memory into a member table;
/// a member whose bytes cannot be read is left out, and a later member of the
/// same name replaces an earlier one. Fails where the container cannot be
/// read or one of its members cannot be opened.
pub fn read_archive(data: Vec<u8>) -> (r: Result<FileMap, DocxError>)
    ensures
        r is Ok <==> (zip_members_of(data@) matches Some(ms) && all_open(ms)),
        r matches Ok(m) ==> m.wf() && m.view_map() == members_map(zip_members_of(data@)->Some_0),
        r matches Err(e) ==> e is Zip,
{
    let ghost d = data@;
    let mut archive = match open_archive(data) {
        Ok(a) => a,
        Err(e) => {
            return Err(DocxError::Zip(e));
        },
    };
    let ghost members = archive_members(archive);
    let mut map = FileMap::new();
    let n = archive_len(&archive);
    let mut i: usize = 0;
    while i < n
        invariant
            i <= n,
            n == members.len(),
            archive_members(archive) == members,
            zip_members_of(d) == Some(members),
            d == data@,
            forall|k: int| 0 <= k < i ==> (#[trigger] members[k]) is Some,
            map.wf(),
            map.view_map() == members_map(members.take(i as int)),
        decreases n - i,
    {
        let ghost pre = members.take(i + 1);
        assert(pre.drop_last() =~= members.take(i as int));
        match read_member(&mut archive, i) {
            Ok((name, Ok(bytes))) => {
                map.insert(name, bytes);
            },
            Ok((_, Err(_))) => {},
            Err(e) => {
                assert(members[i as int] is None);
                assert(!all_open(members));
                assert(!(zip_members_of(d) matches Some(ms) && all_open(ms)));
                return Err(DocxError::Zip(e));
            },
        }
        i = i + 1;
    }
    assert(members.take(i as int) =~= members);
    Ok(map)
}

} // verus!
