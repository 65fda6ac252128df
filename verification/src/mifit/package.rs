//! Zip packages: their entries, and the files that are unpacked from them.
use vstd::prelude::*;
use vstd::string::*;

use crate::text::{self, str_eq};

verus! {

/// What an entry says: its name, the path under which it is unpacked, if it may be,
/// and its data, or why they cannot be read.
pub type EntryView = (Seq<char>, Option<Seq<char>>, Result<Seq<u8>, Seq<char>>);

/// An entry of a package.
pub struct ZipEntry {
    pub name: String,
    /// Where it is unpacked to; none where it would lead out of the directory.
    pub path: Option<String>,
    pub content: Result<Vec<u8>, String>,
}

pub open spec fn content_view(content: Result<Vec<u8>, String>) -> Result<Seq<u8>, Seq<char>> {
    match content {
        Ok(data) => Ok(data@),
        Err(e) => Err(e@),
    }
}

impl ZipEntry {
    pub open spec fn view(&self) -> EntryView {
        (self.name@, text::opt_text(self.path), content_view(self.content))
    }
}

pub open spec fn entry_view(entry: Result<ZipEntry, String>) -> Result<EntryView, Seq<char>> {
    match entry {
        Ok(e) => Ok(e@),
        Err(e) => Err(e@),
    }
}

pub open spec fn entries_view(entries: Seq<Result<ZipEntry, String>>) -> Seq<
    Result<EntryView, Seq<char>>,
> {
    entries.map_values(|e: Result<ZipEntry, String>| entry_view(e))
}

// ---------------------------------------------------------------- names

/// How deep the parts of a path lead, none where they lead out on the way.
pub open spec fn depth(parts: Seq<Seq<char>>) -> Option<nat>
    decreases parts.len(),
{
    if parts.len() == 0 {
        Some(0)
    } else {
        match depth(parts.drop_last()) {
            None => None,
            Some(n) => if parts.last() == ".."@ {
                if n > 0 {
                    Some((n - 1) as nat)
                } else {
                    None
                }
            } else if parts.last().len() == 0 || parts.last() == "."@ {
                Some(n)
            } else {
                Some(n + 1)
            },
        }
    }
}

/// Whether a name never leads out of the directory that it is taken in.
pub open spec fn stays_inside(name: Seq<char>) -> bool {
    !name.contains('\0') && !text::begins_with(name, "/"@) && depth(text::parts(name, '/')) is Some
}

/// Whether a name means the same path on every machine.
pub open spec fn portable(name: Seq<char>) -> bool {
    !name.contains('\\') && !name.contains(':')
}

/// Whether the path of an entry fits its name.
pub open spec fn guarded(entry: EntryView) -> bool {
    &&& entry.1 matches Some(path) ==> path == entry.0 && !path.contains('\0')
    &&& portable(entry.0) ==> (entry.1 is Some <==> stays_inside(entry.0))
}

// ---------------------------------------------------------------- reading

/// The results that counting the entries of a package may have.
pub uninterp spec fn may_count(bytes: Seq<u8>, result: Result<nat, Seq<char>>) -> bool;

/// The results that reading an entry of a package may have.
pub uninterp spec fn may_hold(
    bytes: Seq<u8>,
    index: nat,
    result: Result<EntryView, Seq<char>>,
) -> bool;

/// Wrapper of `zip::ZipArchive::new` on bytes in memory and of `len`: one of the
/// results that these bytes may have. Which bytes are a package, and the message
/// where they are none, is left unsaid: it rests on the word size of the machine.
#[verifier::external_body]
fn count_entries(bytes: &[u8]) -> (r: Result<usize, String>)
    ensures
        match r {
            Ok(n) => may_count(bytes@, Ok(n as nat)),
            Err(e) => may_count(bytes@, Err(e@)),
        },
{
    match zip::ZipArchive::new(std::io::Cursor::new(bytes)) {
        Ok(archive) => Ok(archive.len()),
        Err(error) => Err(error.to_string()),
    }
}

/// Wrapper of `zip::ZipArchive::by_index`, with `name` and `enclosed_name` of the
/// entry and its data read to the end: one of the results that these arguments may
/// have. The path is the name itself, and there is none for a name that leads out;
/// which names do goes by the path rules of the machine, but is the same everywhere
/// for names without backslashes and colons. What the entry holds is left unsaid.
#[verifier::external_body]
fn read_entry(bytes: &[u8], index: usize) -> (r: Result<ZipEntry, String>)
    ensures
        may_hold(bytes@, index as nat, entry_view(r)),
        r matches Ok(e) ==> guarded(e@),
{
    let mut archive = match zip::ZipArchive::new(std::io::Cursor::new(bytes)) {
        Ok(archive) => archive,
        Err(error) => return Err(error.to_string()),
    };
    let mut file = match archive.by_index(index) {
        Ok(file) => file,
        Err(error) => return Err(error.to_string()),
    };
    let name = file.name().to_string();
    let path = file.enclosed_name().map(|path| path.to_string_lossy().into_owned());
    let mut data = Vec::new();
    let read = std::io::Read::read_to_end(&mut file, &mut data);
    Ok(ZipEntry { name, path, content: read.map(|_| data).map_err(|error| error.to_string()) })
}

/// Whether some entries are those of a package, read in order up to the first that
/// cannot be read.
pub open spec fn read_from(bytes: Seq<u8>, entries: Seq<Result<EntryView, Seq<char>>>) -> bool {
    &&& exists|n: nat| #[trigger]
        may_count(bytes, Ok(n)) && entries.len() <= n && (entries.len() < n ==> entries.len() > 0
            && entries.last() is Err)
    &&& forall|i: int|
        0 <= i < entries.len() ==> may_hold(bytes, i as nat, #[trigger] entries[i]) && match entries[i] {
            Ok(e) => guarded(e),
            Err(_) => i == entries.len() - 1,
        }
}

/// Reads the entries of a package.
pub fn read_entries(bytes: &[u8]) -> (r: Result<Vec<Result<ZipEntry, String>>, String>)
    ensures
        match r {
            Ok(entries) => read_from(bytes@, entries_view(entries@)),
            Err(e) => may_count(bytes@, Err(e@)),
        },
{
    let count: usize = match count_entries(bytes) {
        Ok(n) => n,
        Err(e) => return Err(e),
    };
    let mut entries: Vec<Result<ZipEntry, String>> = Vec::new();
    let mut i: usize = 0;
    let mut failed = false;
    while i < count && !failed
        invariant
            i <= count,
            entries@.len() == i,
            failed ==> i > 0 && entries_view(entries@).last() is Err,
            forall|k: int|
                0 <= k < i ==> may_hold(bytes@, k as nat, #[trigger] entries_view(entries@)[k])
                    && match entries_view(entries@)[k] {
                    Ok(e) => guarded(e),
                    Err(_) => failed && k == i - 1,
                },
        decreases count - i,
    {
        let entry = read_entry(bytes, i);
        failed = entry.is_err();
        let ghost before = entries_view(entries@);
        entries.push(entry);
        assert(entries_view(entries@) =~= before.push(entry_view(entry)));
        i = i + 1;
    }
    assert(may_count(bytes@, Ok(count as nat)));
    Ok(entries)
}

// ---------------------------------------------------------------- unpacking

/// What is unpacked from a package.
pub enum Unpacked {
    Directory(String),
    File { path: String, content: Vec<u8> },
}

/// The mathematical value of an [`Unpacked`].
pub enum UnpackedView {
    Directory(Seq<char>),
    File { path: Seq<char>, content: Seq<u8> },
}

impl Unpacked {
    pub open spec fn view(&self) -> UnpackedView {
        match self {
            Unpacked::Directory(path) => UnpackedView::Directory(path@),
            Unpacked::File { path, content } => UnpackedView::File {
                path: path@,
                content: content@,
            },
        }
    }
}

impl UnpackedView {
    pub open spec fn place(self) -> Seq<char> {
        match self {
            UnpackedView::Directory(path) => path,
            UnpackedView::File { path, .. } => path,
        }
    }
}

pub open spec fn files_view(files: Seq<Unpacked>) -> Seq<UnpackedView> {
    files.map_values(|f: Unpacked| f@)
}

/// A path in a directory.
pub open spec fn in_directory(dir: Seq<char>, path: Seq<char>) -> Seq<char> {
    dir + "/"@ + path
}

/// What is unpacked from some entries into a directory, or the first fault. An entry
/// without a path is passed over, and one whose name ends with `/` is a directory.
pub open spec fn gathered(entries: Seq<Result<EntryView, Seq<char>>>, dir: Seq<char>) -> Result<
    Seq<UnpackedView>,
    Seq<char>,
>
    decreases entries.len(),
{
    if entries.len() == 0 {
        Ok(Seq::empty())
    } else {
        match gathered(entries.drop_last(), dir) {
            Err(e) => Err(e),
            Ok(files) => match entries.last() {
                Err(e) => Err(
                    "读取 zip 条目失败 (index="@ + text::decimal((entries.len() - 1) as nat) + "): "@ + e,
                ),
                Ok((name, None, _)) => Ok(files),
                Ok((name, Some(path), content)) => if name.len() > 0 && name.last() == '/' {
                    Ok(files.push(UnpackedView::Directory(path)))
                } else {
                    match content {
                        Err(e) => Err(
                            "解压文件失败 ("@ + in_directory(dir, path) + "): "@ + e,
                        ),
                        Ok(content) => Ok(files.push(UnpackedView::File { path, content })),
                    }
                },
            },
        }
    }
}

/// What is done with one entry.
enum Handled {
    Passed,
    Taken(Unpacked),
    Failed(String),
}

fn is_directory_name(name: &str) -> (r: bool)
    ensures
        r == (name@.len() > 0 && name@.last() == '/'),
{
    let n: usize = name.unicode_len();
    n > 0 && name.get_char(n - 1) == '/'
}

fn handle(entry: Result<ZipEntry, String>, index: usize, dir: &str) -> (r: Handled)
    ensures
        match entry_view(entry) {
            Err(e) => r matches Handled::Failed(m) && m@ == "读取 zip 条目失败 (index="@
                + text::decimal(index as nat) + "): "@ + e,
            Ok((name, None, _)) => r is Passed,
            Ok((name, Some(path), content)) => if name.len() > 0 && name.last() == '/' {
                r matches Handled::Taken(f) && f@ == UnpackedView::Directory(path)
            } else {
                match content {
                    Err(e) => r matches Handled::Failed(m) && m@ == "解压文件失败 ("@ + in_directory(
                        dir@,
                        path,
                    ) + "): "@ + e,
                    Ok(content) => r matches Handled::Taken(f) && f@ == (UnpackedView::File {
                        path,
                        content,
                    }),
                }
            },
        },
{
    let e = match entry {
        Ok(e) => e,
        Err(e) => {
            let n = text::u64_text(index as u64);
            let mut m = text::cat3("读取 zip 条目失败 (index=", n.as_str(), "): ");
            m.append(e.as_str());
            return Handled::Failed(m);
        },
    };
    let path = match e.path {
        Some(path) => path,
        None => return Handled::Passed,
    };
    if is_directory_name(e.name.as_str()) {
        return Handled::Taken(Unpacked::Directory(path));
    }
    match e.content {
        Ok(content) => Handled::Taken(Unpacked::File { path, content }),
        Err(fault) => {
            let shown = text::cat3(dir, "/", path.as_str());
            let mut m = text::cat3("解压文件失败 (", shown.as_str(), "): ");
            m.append(fault.as_str());
            Handled::Failed(m)
        },
    }
}

/// Unpacks entries into a directory.
pub fn gather(entries: Vec<Result<ZipEntry, String>>, dir: &str) -> (r: Result<Vec<Unpacked>, String>)
    ensures
        match r {
            Ok(files) => gathered(entries_view(entries@), dir@) == Ok::<
                Seq<UnpackedView>,
                Seq<char>,
            >(files_view(files@)),
            Err(e) => gathered(entries_view(entries@), dir@) == Err::<
                Seq<UnpackedView>,
                Seq<char>,
            >(e@),
        },
{
    let ghost all = entries_view(entries@);
    let total: usize = entries.len();
    let mut rest = entries;
    let mut files: Vec<Unpacked> = Vec::new();
    let mut i: usize = 0;
    proof {
        assert(all.take(0) =~= Seq::empty());
        assert(files_view(files@) =~= Seq::empty());
        assert(all.skip(0) =~= all);
    }
    while i < total
        invariant
            i <= total,
            total == all.len(),
            all == entries_view(entries@),
            entries_view(rest@) == all.skip(i as int),
            rest@.len() == total - i,
            gathered(all.take(i as int), dir@) == Ok::<Seq<UnpackedView>, Seq<char>>(
                files_view(files@),
            ),
        decreases total - i,
    {
        let ghost before = rest@;
        let entry = rest.remove(0);
        proof {
            assert(entries_view(before)[0] == entry_view(entry));
            assert(all.skip(i as int)[0] == all[i as int]);
            assert(entries_view(rest@) =~= all.skip(i + 1)) by {
                assert forall|k: int| 0 <= k < rest@.len() implies entries_view(rest@)[k]
                    == all.skip(i + 1)[k] by {
                    assert(rest@[k] == before[k + 1]);
                    assert(entries_view(before)[k + 1] == all.skip(i as int)[k + 1]);
                }
            }
            assert(all.take(i + 1).drop_last() =~= all.take(i as int));
            assert(all.take(i + 1).last() == entry_view(entry));
        }
        match handle(entry, i, dir) {
            Handled::Passed => {},
            Handled::Taken(f) => {
                let ghost had = files_view(files@);
                files.push(f);
                assert(files_view(files@) =~= had.push(f@));
            },
            Handled::Failed(m) => {
                proof {
                    lemma_fault_stays(all, i + 1, dir@);
                }
                return Err(m);
            },
        }
        i = i + 1;
    }
    assert(all.take(i as int) =~= all);
    Ok(files)
}

proof fn lemma_fault_stays(entries: Seq<Result<EntryView, Seq<char>>>, n: int, dir: Seq<char>)
    requires
        0 <= n <= entries.len(),
        gathered(entries.take(n), dir) is Err,
    ensures
        gathered(entries, dir) == gathered(entries.take(n), dir),
    decreases entries.len(),
{
    if n < entries.len() {
        assert(entries.drop_last().take(n) =~= entries.take(n));
        lemma_fault_stays(entries.drop_last(), n, dir);
    } else {
        assert(entries.take(n) =~= entries);
    }
}

/// Whether a result is what is unpacked from a package into a directory.
pub open spec fn unpacks(bytes: Seq<u8>, dir: Seq<char>, r: Result<Seq<UnpackedView>, Seq<char>>) -> bool {
    ||| exists|e: Seq<char>| #[trigger] may_count(bytes, Err(e)) && r == Err::<
        Seq<UnpackedView>,
        Seq<char>,
    >("读取 zip 结构失败: "@ + e)
    ||| exists|entries: Seq<Result<EntryView, Seq<char>>>| #[trigger]
        read_from(bytes, entries) && r == gathered(entries, dir)
}

pub open spec fn result_view(r: Result<Vec<Unpacked>, String>) -> Result<
    Seq<UnpackedView>,
    Seq<char>,
> {
    match r {
        Ok(files) => Ok(files_view(files@)),
        Err(e) => Err(e@),
    }
}

/// Unpacks a package. `dir` is the directory that the files go into.
pub fn unpack(bytes: &[u8], dir: &str) -> (r: Result<Vec<Unpacked>, String>)
    ensures
        unpacks(bytes@, dir@, result_view(r)),
{
    match read_entries(bytes) {
        Ok(entries) => {
            assert(read_from(bytes@, entries_view(entries@)));
            gather(entries, dir)
        },
        Err(e) => {
            assert(may_count(bytes@, Err(e@)));
            Err(text::cat("读取 zip 结构失败: ", e.as_str()))
        },
    }
}

// ---------------------------------------------------------------- looking up

/// Whether a file has a name, whatever directory it stands in.
pub open spec fn is_named(f: UnpackedView, name: Seq<char>) -> bool {
    f matches UnpackedView::File { path, .. } && text::tail(path, '/') == name
}

/// The last file of a name: no other file was written over it.
pub open spec fn last_named(files: Seq<UnpackedView>, name: Seq<char>) -> Option<int>
    decreases files.len(),
{
    if files.len() == 0 {
        None
    } else if is_named(files.last(), name) {
        Some(files.len() - 1)
    } else {
        last_named(files.drop_last(), name)
    }
}

fn has_name(f: &Unpacked, name: &str) -> (r: bool)
    ensures
        r == is_named(f@, name@),
{
    match f {
        Unpacked::Directory(_) => false,
        Unpacked::File { path, content: _ } => match text::rsplit_once(path.as_str(), '/') {
            Some((_, last)) => str_eq(last.as_str(), name),
            None => str_eq(path.as_str(), name),
        },
    }
}

/// Finds the last file of a name.
pub fn find_file_by_name(files: &Vec<Unpacked>, name: &str) -> (r: Option<usize>)
    ensures
        match r {
            Some(i) => last_named(files_view(files@), name@) == Some(i as int) && i < files@.len(),
            None => last_named(files_view(files@), name@) is None,
        },
{
    let ghost all = files_view(files@);
    let mut n: usize = files.len();
    assert(all.take(n as int) =~= all);
    while n > 0
        invariant
            n <= files@.len(),
            all == files_view(files@),
            last_named(all, name@) == last_named(all.take(n as int), name@),
        decreases n,
    {
        assert(all.take(n as int).last() == files@[n - 1]@);
        assert(all.take(n as int).drop_last() =~= all.take(n - 1));
        if has_name(&files[n - 1], name) {
            return Some(n - 1);
        }
        n = n - 1;
    }
    None
}

// ---------------------------------------------------------------- laws

proof fn lemma_gathered_paths(entries: Seq<Result<EntryView, Seq<char>>>, dir: Seq<char>, i: int)
    requires
        gathered(entries, dir) is Ok,
        0 <= i < gathered(entries, dir)->Ok_0.len(),
        forall|k: int|
            0 <= k < entries.len() ==> ((#[trigger] entries[k]) matches Ok(e) ==> guarded(e)),
    ensures
        ({
            let path = gathered(entries, dir)->Ok_0[i].place();
            !path.contains('\0') && (portable(path) ==> stays_inside(path))
        }),
    decreases entries.len(),
{
    if entries.len() > 0 {
        let front = entries.drop_last();
        let files = gathered(front, dir)->Ok_0;
        assert(entries[entries.len() - 1] == entries.last());
        if i < files.len() {
            assert forall|k: int| 0 <= k < front.len() implies ((#[trigger] front[k]) matches Ok(e)
                ==> guarded(e)) by {
                assert(front[k] == entries[k]);
            }
            lemma_gathered_paths(front, dir, i);
        }
    }
}

/// Nothing is unpacked to a place outside the directory.
pub proof fn unpacked_paths_stay_inside(bytes: Seq<u8>, dir: Seq<char>, files: Seq<UnpackedView>, i: int)
    requires
        unpacks(bytes, dir, Ok(files)),
        0 <= i < files.len(),
        portable(files[i].place()),
    ensures
        stays_inside(files[i].place()),
{
    let entries = choose|entries: Seq<Result<EntryView, Seq<char>>>| #[trigger]
        read_from(bytes, entries) && Ok::<Seq<UnpackedView>, Seq<char>>(files) == gathered(
            entries,
            dir,
        );
    lemma_gathered_paths(entries, dir, i);
}

/// What is unpacked of an entry.
pub open spec fn unpacked_of(e: Result<EntryView, Seq<char>>) -> Seq<UnpackedView> {
    match e {
        Ok((name, Some(path), content)) => if name.len() > 0 && name.last() == '/' {
            seq![UnpackedView::Directory(path)]
        } else {
            match content {
                Ok(content) => seq![UnpackedView::File { path, content }],
                Err(_) => Seq::empty(),
            }
        },
        _ => Seq::empty(),
    }
}

/// A package is unpacked entry by entry, in the order of the package: a file with
/// its bytes, a directory where the name ends with a slash, and nothing for a name
/// that leads out.
pub proof fn entries_are_unpacked_in_order(
    entries: Seq<Result<EntryView, Seq<char>>>,
    dir: Seq<char>,
)
    requires
        gathered(entries, dir) is Ok,
    ensures
        gathered(entries, dir)->Ok_0 == entries.map_values(
            |e: Result<EntryView, Seq<char>>| unpacked_of(e),
        ).flatten(),
        forall|i: int| 0 <= i < entries.len() ==> #[trigger] entries[i] is Ok,
    decreases entries.len(),
{
    let f = |e: Result<EntryView, Seq<char>>| unpacked_of(e);
    let parts = entries.map_values(f);
    if entries.len() > 0 {
        let rest = entries.drop_last();
        entries_are_unpacked_in_order(rest, dir);
        assert(parts.drop_last() =~= rest.map_values(f));
        assert(parts.last() == unpacked_of(entries.last()));
        parts.lemma_flatten_and_flatten_alt_are_equivalent();
        parts.drop_last().lemma_flatten_and_flatten_alt_are_equivalent();
        assert(parts.flatten() == parts.drop_last().flatten() + parts.last());
        let files = gathered(rest, dir)->Ok_0;
        assert(files + Seq::<UnpackedView>::empty() =~= files);
        assert forall|f: UnpackedView| #[trigger] files.push(f) =~= files + seq![f] by {}
        assert(gathered(entries, dir)->Ok_0 =~= files + unpacked_of(entries.last()));
        assert forall|i: int| 0 <= i < entries.len() implies #[trigger] entries[i] is Ok by {
            if i < rest.len() {
                assert(rest[i] == entries[i]);
            }
        }
    } else {
        assert(parts.flatten() =~= Seq::empty());
    }
}

/// An entry that cannot be read, or a file whose bytes cannot be, fails the whole
/// package.
pub proof fn faults_fail_the_package(
    entries: Seq<Result<EntryView, Seq<char>>>,
    dir: Seq<char>,
    i: int,
)
    requires
        0 <= i < entries.len(),
        match entries[i] {
            Err(_) => true,
            Ok((name, path, content)) => path is Some && content is Err && (name.len() == 0
                || name.last() != '/'),
        },
    ensures
        gathered(entries, dir) is Err,
    decreases entries.len(),
{
    if i < entries.len() - 1 {
        assert(entries.drop_last()[i] == entries[i]);
        faults_fail_the_package(entries.drop_last(), dir, i);
    }
}

/// The file that is found has the name that is looked for behind its last slash,
/// whatever directory it stands in, and no later file has it.
pub proof fn files_are_found_by_name(files: Seq<UnpackedView>, name: Seq<char>)
    ensures
        match last_named(files, name) {
            Some(i) => {
                &&& 0 <= i < files.len()
                &&& files[i] is File
                &&& text::tail(files[i].place(), '/') == name
                &&& forall|j: int|
                    i < j < files.len() && (#[trigger] files[j]) is File ==> text::tail(
                        files[j].place(),
                        '/',
                    ) != name
            },
            None => forall|j: int|
                0 <= j < files.len() && (#[trigger] files[j]) is File ==> text::tail(
                    files[j].place(),
                    '/',
                ) != name,
        },
    decreases files.len(),
{
    if files.len() > 0 && !is_named(files.last(), name) {
        let rest = files.drop_last();
        files_are_found_by_name(rest, name);
        let from = match last_named(files, name) {
            Some(i) => i,
            None => -1,
        };
        assert forall|j: int| from < j < files.len() && (#[trigger] files[j]) is File implies text::tail(
            files[j].place(),
            '/',
        ) != name by {
            if j < rest.len() {
                assert(rest[j] == files[j]);
            }
        }
    }
}

/// A path that goes up no further than it went down stays inside, and one that
/// begins by going up does not.
pub proof fn going_up_needs_going_down(parts: Seq<Seq<char>>, part: Seq<char>)
    requires
        depth(parts) is Some,
    ensures
        part != ".."@ && part != "."@ && part.len() > 0 ==> depth(parts.push(part).push(".."@))
            == depth(parts),
        depth(seq![".."@]) is None,
        depth(parts) == Some(0nat) ==> depth(parts.push(".."@)) is None,
{
    let down = parts.push(part);
    let up = down.push(".."@);
    assert(down.drop_last() =~= parts);
    assert(up.drop_last() =~= down);
    assert(up.last() == ".."@);
    assert(down.last() == part);
    if part != ".."@ && part != "."@ && part.len() > 0 {
        assert(depth(down) == Some(depth(parts)->0 + 1));
    }
    assert(parts.push(".."@).drop_last() =~= parts);
    let one = seq![".."@];
    assert(one.drop_last() =~= Seq::empty());
    assert(one.last() == ".."@);
    assert(depth(Seq::<Seq<char>>::empty()) == Some(0nat));
}

/// Whatever follows, a path that left the directory once does not stay inside.
pub proof fn what_leaves_does_not_return(parts: Seq<Seq<char>>, more: Seq<Seq<char>>)
    requires
        depth(parts) is None,
    ensures
        depth(parts + more) is None,
    decreases more.len(),
{
    if more.len() == 0 {
        assert(parts + more =~= parts);
    } else {
        what_leaves_does_not_return(parts, more.drop_last());
        assert((parts + more).drop_last() =~= parts + more.drop_last());
    }
}

/// A package in which every entry and every file can be read is unpacked.
pub proof fn sound_packages_are_unpacked(
    entries: Seq<Result<EntryView, Seq<char>>>,
    dir: Seq<char>,
)
    requires
        forall|i: int|
            0 <= i < entries.len() ==> ((#[trigger] entries[i]) matches Ok((name, path, content))
                && (path is None || content is Ok || (name.len() > 0 && name.last() == '/'))),
    ensures
        gathered(entries, dir) is Ok,
    decreases entries.len(),
{
    if entries.len() > 0 {
        let rest = entries.drop_last();
        assert forall|i: int| 0 <= i < rest.len() implies ((#[trigger] rest[i]) matches Ok(
            (name, path, content),
        ) && (path is None || content is Ok || (name.len() > 0 && name.last() == '/'))) by {
            assert(rest[i] == entries[i]);
        }
        sound_packages_are_unpacked(rest, dir);
        let last = entries[entries.len() - 1];
        assert(last is Ok);
        assert(last->Ok_0.1 is None || last->Ok_0.2 is Ok || (last->Ok_0.0.len() > 0
            && last->Ok_0.0.last() == '/'));
    }
}

} // verus!
