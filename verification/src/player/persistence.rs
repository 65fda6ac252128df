//! The library file, and the paths that it may name.
use vstd::prelude::*;
use vstd::string::*;
use vstd::utf8::*;

use crate::player::model::{AlbumRef, Song};
use crate::text;

verus! {

pub const QUICKAPP_PACKAGE: &'static str = "com.canopus.lyraimport";

pub const IMPORT_ROOT: &'static str = "/data/files/com.canopus.lyraimport/lyra";

pub const LIBRARY_PATH: &'static str = "/data/files/com.canopus.lyraimport/lyra/library.json";

/// Where files stood before; older library files name it.
pub const LEGACY_IMPORT_ROOT: &'static str = "/data/quickapp/files/com.canopus.lyraimport/lyra";

/// Where files are read from.
pub trait Store {
    type Error;

    fn read(&mut self, path: &str) -> Result<Option<Vec<u8>>, Self::Error>;
}

/// The content of a library file.
pub struct LibraryFile {
    pub version: u8,
    pub tracks: Vec<Song>,
}

#[derive(Clone, Copy, Debug, PartialEq, Eq)]
pub enum PersistenceError<E> {
    Storage(E),
    Json,
    Version,
    UnsafePath,
}

// ---------------------------------------------------------------- paths

/// What stands behind a directory in a path.
pub open spec fn below(path: Seq<char>, root: Seq<char>) -> Option<Seq<char>> {
    if text::begins_with(path, root) && text::begins_with(path.skip(root.len() as int), "/"@) {
        Some(path.skip(root.len() as int).skip(1))
    } else {
        None
    }
}

pub(crate) fn relative_to(path: &str, root: &str) -> (r: Option<String>)
    ensures
        text::opt_text(r) == below(path@, root@),
{
    proof {
        reveal_strlit("/");
    }
    match text::strip_prefix(path, root) {
        Some(rest) => text::strip_prefix(rest.as_str(), "/"),
        None => None,
    }
}

/// A path in the directory where files stand now.
pub open spec fn normalized(path: Seq<char>) -> Seq<char> {
    match below(path, LEGACY_IMPORT_ROOT@) {
        Some(relative) => IMPORT_ROOT@ + "/"@ + relative,
        None => path,
    }
}

/// Replaces the former directory in a path.
pub fn normalize_legacy_path(path: &str) -> (r: String)
    ensures
        r@ == normalized(path@),
{
    match relative_to(path, LEGACY_IMPORT_ROOT) {
        Some(relative) => text::cat3(IMPORT_ROOT, "/", relative.as_str()),
        None => path.to_owned(),
    }
}

/// Whether a character may stand in a path.
pub open spec fn path_char(c: char) -> bool {
    c != '\\' && c as int >= 32 && c as int != 127
}

/// Whether a path leads down from a directory, and nowhere else.
pub open spec fn leads_down(relative: Seq<char>) -> bool {
    &&& relative.len() > 0
    &&& relative[0] != '.'
    &&& !text::has_part(relative, ".."@)
    &&& forall|i: int| 0 <= i < relative.len() ==> path_char(#[trigger] relative[i])
}

fn good_char(c: char) -> (r: bool)
    ensures
        r == path_char(c),
{
    let n: u32 = c as u32;
    c != '\\' && n >= 32 && n != 127
}

fn does_lead_down(relative: &str) -> (r: bool)
    ensures
        r == leads_down(relative@),
{
    let chars = text::chars_of(relative);
    if chars.len() == 0 || chars[0] == '.' || text::contains(relative, "..") {
        return false;
    }
    let mut i: usize = 0;
    while i < chars.len()
        invariant
            i <= chars@.len(),
            chars@ == relative@,
            forall|j: int| 0 <= j < i ==> path_char(#[trigger] chars@[j]),
        decreases chars.len() - i,
    {
        if !good_char(chars[i]) {
            assert(!path_char(relative@[i as int]));
            return false;
        }
        i = i + 1;
    }
    true
}

/// Whether a text ends with another one, whatever its case.
pub open spec fn has_extension(s: Seq<char>, extension: Seq<char>) -> bool {
    extension.len() <= s.len() && text::lowered(s).skip(s.len() - extension.len()) == extension
}

fn ends_with(s: &str, extension: &str) -> (r: bool)
    ensures
        r == has_extension(s@, extension@),
{
    let low = text::to_lower(s);
    let a = text::chars_of(low.as_str());
    let b = text::chars_of(extension);
    if b.len() > a.len() {
        return false;
    }
    let start: usize = a.len() - b.len();
    let end = text::string_of(vstd::slice::slice_subrange(a.as_slice(), start, a.len()));
    assert(end@ =~= text::lowered(s@).skip(s@.len() - extension@.len()));
    text::str_eq(end.as_str(), extension)
}

/// Whether a path stands below the directory of the imports, leads nowhere else,
/// and is short enough.
pub open spec fn inside(path: Seq<char>) -> bool {
    match below(path, IMPORT_ROOT@) {
        Some(relative) => leads_down(relative) && encode_utf8(relative).len() <= 240,
        None => false,
    }
}

fn is_inside(path: &str) -> (r: bool)
    ensures
        r == inside(path@),
{
    match relative_to(path, IMPORT_ROOT) {
        Some(relative) => does_lead_down(relative.as_str()) && relative.as_str().as_bytes().len()
            <= 240,
        None => false,
    }
}

/// The part of a path below the directory of the imports.
pub open spec fn file_part(path: Seq<char>) -> Seq<char> {
    path.skip(IMPORT_ROOT@.len() as int).skip(1)
}

fn part_ends_with(path: &str, extension: &str) -> (r: bool)
    requires
        inside(path@),
    ensures
        r == has_extension(file_part(path@), extension@),
{
    match relative_to(path, IMPORT_ROOT) {
        Some(relative) => ends_with(relative.as_str(), extension),
        None => false,
    }
}

pub open spec fn safe_audio(path: Seq<char>) -> bool {
    inside(path) && has_extension(file_part(path), ".mp3"@)
}

pub open spec fn safe_cover(path: Seq<char>) -> bool {
    inside(path) && {
        let f = file_part(path);
        has_extension(f, ".jpg"@) || has_extension(f, ".jpeg"@) || has_extension(f, ".png"@)
            || has_extension(f, ".bin"@)
    }
}

pub open spec fn safe_background(path: Seq<char>) -> bool {
    inside(path) && has_extension(file_part(path), ".bin"@)
}

pub open spec fn safe_lyrics(path: Seq<char>) -> bool {
    inside(path) && {
        let f = file_part(path);
        has_extension(f, ".lrc"@) || has_extension(f, ".json"@) || has_extension(f, ".txt"@)
    }
}

pub fn is_safe_audio_path(path: &str) -> (r: bool)
    ensures
        r == safe_audio(path@),
{
    is_inside(path) && part_ends_with(path, ".mp3")
}

pub fn is_safe_cover_path(path: &str) -> (r: bool)
    ensures
        r == safe_cover(path@),
{
    is_inside(path) && (part_ends_with(path, ".jpg") || part_ends_with(path, ".jpeg")
        || part_ends_with(path, ".png") || part_ends_with(path, ".bin"))
}

pub fn is_safe_background_path(path: &str) -> (r: bool)
    ensures
        r == safe_background(path@),
{
    is_inside(path) && part_ends_with(path, ".bin")
}

pub fn is_safe_lyrics_path(path: &str) -> (r: bool)
    ensures
        r == safe_lyrics(path@),
{
    is_inside(path) && (part_ends_with(path, ".lrc") || part_ends_with(path, ".json")
        || part_ends_with(path, ".txt"))
}

/// The path of a file below the directory of the imports, where it stays there.
pub fn physical_path(relative: &str) -> (r: Option<String>)
    ensures
        match r {
            Some(p) => leads_down(relative@) && relative@[0] != '/' && p@ == IMPORT_ROOT@ + "/"@
                + relative@,
            None => !leads_down(relative@) || relative@[0] == '/',
        },
{
    proof {
        reveal_strlit("/");
        if relative@.len() > 0 {
            assert(relative@.subrange(0, 1)[0] == relative@[0]);
            if relative@[0] == '/' {
                assert(relative@.subrange(0, 1) =~= "/"@);
            }
        }
    }
    if !does_lead_down(relative) || text::starts_with(relative, "/") {
        return None;
    }
    Some(text::cat3(IMPORT_ROOT, "/", relative))
}

// ---------------------------------------------------------------- library

/// Whether one song is another one with its paths normalized.
pub open spec fn song_normalized(before: Song, after: Song) -> bool {
    &&& after.id == before.id
    &&& after.name == before.name
    &&& after.artists == before.artists
    &&& after.album.id == before.album.id
    &&& after.album.name == before.album.name
    &&& after.album.cover_url@ == normalized(before.album.cover_url@)
    &&& after.album.background_url@ == normalized(before.album.background_url@)
    &&& after.duration_ms == before.duration_ms
    &&& text::opt_text(after.local_path) == opt_normalized(text::opt_text(before.local_path))
    &&& text::opt_text(after.lyrics_path) == opt_normalized(text::opt_text(before.lyrics_path))
}

pub open spec fn opt_normalized(path: Option<Seq<char>>) -> Option<Seq<char>> {
    match path {
        Some(p) => Some(normalized(p)),
        None => None,
    }
}

fn normalize_optional(path: Option<String>) -> (r: Option<String>)
    ensures
        text::opt_text(r) == opt_normalized(text::opt_text(path)),
{
    match path {
        Some(p) => Some(normalize_legacy_path(p.as_str())),
        None => None,
    }
}

fn normalize_song(song: Song) -> (r: Song)
    ensures
        song_normalized(song, r),
{
    Song {
        id: song.id,
        name: song.name,
        artists: song.artists,
        album: AlbumRef {
            id: song.album.id,
            name: song.album.name,
            cover_url: normalize_legacy_path(song.album.cover_url.as_str()),
            background_url: normalize_legacy_path(song.album.background_url.as_str()),
        },
        duration_ms: song.duration_ms,
        local_path: normalize_optional(song.local_path),
        lyrics_path: normalize_optional(song.lyrics_path),
    }
}

/// Whether a song names a safe audio file, and no unsafe file.
pub open spec fn song_safe(s: Song) -> bool {
    &&& s.local_path matches Some(p) && safe_audio(p@)
    &&& s.album.cover_url@.len() > 0 ==> safe_cover(s.album.cover_url@)
    &&& s.album.background_url@.len() > 0 ==> safe_background(s.album.background_url@)
    &&& s.lyrics_path matches Some(p) ==> safe_lyrics(p@)
}

fn is_safe(s: &Song) -> (r: bool)
    ensures
        r == song_safe(*s),
{
    let audio = match &s.local_path {
        Some(p) => is_safe_audio_path(p.as_str()),
        None => false,
    };
    let lyrics = match &s.lyrics_path {
        Some(p) => is_safe_lyrics_path(p.as_str()),
        None => true,
    };
    audio && lyrics && (s.album.cover_url.as_str().is_empty() || is_safe_cover_path(
        s.album.cover_url.as_str(),
    )) && (s.album.background_url.as_str().is_empty() || is_safe_background_path(
        s.album.background_url.as_str(),
    ))
}

/// The paths of a song after they are normalized.
pub open spec fn safe_when_normalized(s: Song) -> bool {
    &&& s.local_path matches Some(p) && safe_audio(normalized(p@))
    &&& normalized(s.album.cover_url@).len() > 0 ==> safe_cover(normalized(s.album.cover_url@))
    &&& normalized(s.album.background_url@).len() > 0 ==> safe_background(
        normalized(s.album.background_url@),
    )
    &&& s.lyrics_path matches Some(p) ==> safe_lyrics(normalized(p@))
}

pub open spec fn all_safe(tracks: Seq<Song>) -> bool {
    forall|i: int| 0 <= i < tracks.len() ==> safe_when_normalized(#[trigger] tracks[i])
}

fn normalize_all(tracks: Vec<Song>) -> (r: Vec<Song>)
    ensures
        r@.len() == tracks@.len(),
        forall|i: int|
            0 <= i < tracks@.len() ==> song_normalized(tracks@[i], #[trigger] r@[i]),
{
    let ghost all = tracks@;
    let mut left = tracks;
    let mut backwards: Vec<Song> = Vec::new();
    while left.len() > 0
        invariant
            left@ == all.take(left@.len() as int),
            left@.len() <= all.len(),
            backwards@.len() == all.len() - left@.len(),
            forall|j: int|
                0 <= j < backwards@.len() ==> song_normalized(
                    all[all.len() - 1 - j],
                    #[trigger] backwards@[j],
                ),
        decreases left@.len(),
    {
        if let Some(song) = left.pop() {
            backwards.push(normalize_song(song));
        }
        assert(left@ =~= all.take(left@.len() as int));
    }
    let mut out: Vec<Song> = Vec::new();
    while backwards.len() > 0
        invariant
            out@.len() + backwards@.len() == all.len(),
            forall|j: int|
                0 <= j < backwards@.len() ==> song_normalized(
                    all[all.len() - 1 - j],
                    #[trigger] backwards@[j],
                ),
            forall|j: int| 0 <= j < out@.len() ==> song_normalized(all[j], #[trigger] out@[j]),
        decreases backwards@.len(),
    {
        if let Some(song) = backwards.pop() {
            out.push(song);
        }
    }
    out
}

/// Takes the library file that was read, if there is one; `None` within stands
/// for a file that is none. Paths are normalized, and one unsafe path refuses the
/// file.
pub fn load_library<E>(read: Result<Option<Option<LibraryFile>>, E>) -> (r: Result<
    Vec<Song>,
    PersistenceError<E>,
>)
    ensures
        match read {
            Err(e) => r == Err::<Vec<Song>, PersistenceError<E>>(PersistenceError::Storage(e)),
            Ok(None) => r matches Ok(tracks) && tracks@.len() == 0,
            Ok(Some(None)) => r == Err::<Vec<Song>, PersistenceError<E>>(PersistenceError::Json),
            Ok(Some(Some(file))) => if file.version != 1 {
                r == Err::<Vec<Song>, PersistenceError<E>>(PersistenceError::Version)
            } else if !all_safe(file.tracks@) {
                r == Err::<Vec<Song>, PersistenceError<E>>(PersistenceError::UnsafePath)
            } else {
                r matches Ok(tracks) && tracks@.len() == file.tracks@.len() && forall|i: int|
                    0 <= i < tracks@.len() ==> song_normalized(
                        file.tracks@[i],
                        #[trigger] tracks@[i],
                    ) && song_safe(tracks@[i])
            },
        },
{
    let file = match read {
        Err(e) => {
            return Err(PersistenceError::Storage(e));
        },
        Ok(None) => {
            return Ok(Vec::new());
        },
        Ok(Some(None)) => {
            return Err(PersistenceError::Json);
        },
        Ok(Some(Some(file))) => file,
    };
    if file.version != 1 {
        return Err(PersistenceError::Version);
    }
    let ghost given = file.tracks@;
    let tracks = normalize_all(file.tracks);
    let mut i: usize = 0;
    while i < tracks.len()
        invariant
            i <= tracks@.len(),
            tracks@.len() == given.len(),
            given == file.tracks@,
            read == Ok::<Option<Option<LibraryFile>>, E>(Some(Some(file))),
            file.version == 1,
            forall|j: int|
                0 <= j < tracks@.len() ==> song_normalized(given[j], #[trigger] tracks@[j]),
            forall|j: int| 0 <= j < i ==> song_safe(#[trigger] tracks@[j]),
        decreases tracks.len() - i,
    {
        if !is_safe(&tracks[i]) {
            assert(song_normalized(given[i as int], tracks@[i as int]));
            assert(!safe_when_normalized(given[i as int]));
            return Err(PersistenceError::UnsafePath);
        }
        i = i + 1;
    }
    proof {
        assert forall|j: int| 0 <= j < given.len() implies safe_when_normalized(
            #[trigger] given[j],
        ) by {
            assert(song_normalized(given[j], tracks@[j]));
            assert(song_safe(tracks@[j]));
        }
    }
    Ok(tracks)
}

// ---------------------------------------------------------------- laws

proof fn lemma_below_joined(root: Seq<char>, relative: Seq<char>)
    ensures
        below(root + "/"@ + relative, root) == Some(relative),
{
    reveal_strlit("/");
    let p = root + "/"@ + relative;
    assert(p.subrange(0, root.len() as int) =~= root);
    let rest = p.skip(root.len() as int);
    assert(rest =~= "/"@ + relative);
    assert(rest.subrange(0, 1) =~= "/"@);
    assert(rest.skip(1) =~= relative);
}

/// A safe path stands below the directory of the imports, and no part of it leads
/// up.
pub proof fn safe_paths_stay_inside(path: Seq<char>)
    requires
        safe_audio(path) || safe_cover(path) || safe_background(path) || safe_lyrics(path),
    ensures
        path == IMPORT_ROOT@ + "/"@ + file_part(path),
        leads_down(file_part(path)),
{
    reveal_strlit("/");
    let rest = path.skip(IMPORT_ROOT@.len() as int);
    assert(path.subrange(0, IMPORT_ROOT@.len() as int) =~= IMPORT_ROOT@);
    assert(rest.subrange(0, 1) =~= "/"@);
    assert(rest =~= "/"@ + rest.skip(1));
    assert(path =~= IMPORT_ROOT@ + rest);
    assert(path =~= IMPORT_ROOT@ + "/"@ + file_part(path));
}

/// A path in the former directory becomes the same file in the present one, and
/// normalizing once more changes nothing.
pub proof fn normalizing_moves_the_root(relative: Seq<char>)
    ensures
        normalized(LEGACY_IMPORT_ROOT@ + "/"@ + relative) == IMPORT_ROOT@ + "/"@ + relative,
        normalized(IMPORT_ROOT@ + "/"@ + relative) == IMPORT_ROOT@ + "/"@ + relative,
{
    lemma_below_joined(LEGACY_IMPORT_ROOT@, relative);
    reveal_strlit("/data/files/com.canopus.lyraimport/lyra");
    reveal_strlit("/data/quickapp/files/com.canopus.lyraimport/lyra");
    let p = IMPORT_ROOT@ + "/"@ + relative;
    if text::begins_with(p, LEGACY_IMPORT_ROOT@) {
        assert(p.subrange(0, LEGACY_IMPORT_ROOT@.len() as int)[6] == p[6]);
        assert(p[6] == 'f');
        assert(LEGACY_IMPORT_ROOT@[6] == 'q');
    }
}

/// Normalizing twice is normalizing once.
pub proof fn normalizing_is_idempotent(path: Seq<char>)
    ensures
        normalized(normalized(path)) == normalized(path),
{
    if let Some(relative) = below(path, LEGACY_IMPORT_ROOT@) {
        normalizing_moves_the_root(relative);
    }
}

/// A path that was made for an audio file of no more than 240 bytes is a safe
/// one.
pub proof fn physical_paths_are_inside(relative: Seq<char>)
    requires
        leads_down(relative),
        encode_utf8(relative).len() <= 240,
        has_extension(relative, ".mp3"@),
    ensures
        safe_audio(IMPORT_ROOT@ + "/"@ + relative),
{
    lemma_below_joined(IMPORT_ROOT@, relative);
    let p = IMPORT_ROOT@ + "/"@ + relative;
    assert(file_part(p) == relative);
}

/// A path is below a directory exactly where it is the directory, a slash and what
/// is below.
pub proof fn paths_below_are_joined(root: Seq<char>, relative: Seq<char>, path: Seq<char>)
    ensures
        below(root + "/"@ + relative, root) == Some(relative),
        below(path, root) matches Some(r) ==> path == root + "/"@ + r,
{
    lemma_below_joined(root, relative);
    reveal_strlit("/");
    if let Some(r) = below(path, root) {
        let rest = path.skip(root.len() as int);
        assert(path.subrange(0, root.len() as int) =~= root);
        assert(rest.subrange(0, 1) =~= "/"@);
        assert(rest =~= "/"@ + r);
        assert(path =~= root + rest);
        assert(path =~= root + "/"@ + r);
    }
}

/// A path that holds two dots anywhere, begins with a dot or holds a control
/// character does not lead down.
pub proof fn dots_lead_nowhere(a: Seq<char>, b: Seq<char>, c: char)
    ensures
        !leads_down(a + ".."@ + b),
        !leads_down(seq!['.'] + a),
        c == '\\' || (c as int) < 32 || c as int == 127 ==> !leads_down(a + seq![c] + b),
        !leads_down(Seq::empty()),
{
    let s = a + ".."@ + b;
    assert(text::occurs_at(s, ".."@, a.len() as int)) by {
        assert(s.subrange(a.len() as int, (a.len() + ".."@.len()) as int) =~= ".."@);
    }
    assert((seq!['.'] + a)[0] == '.');
    let t = a + seq![c] + b;
    assert(t[a.len() as int] == c);
    if leads_down(t) {
        assert(path_char(t[a.len() as int]));
    }
}

/// The extension of a file is its end, in upper or in lower case.
pub proof fn extensions_end_a_name(name: Seq<char>, end: Seq<char>, extension: Seq<char>)
    requires
        end.len() == extension.len(),
    ensures
        has_extension(name + end, extension) <==> text::lowered(end) == extension,
{
    let s = name + end;
    assert(text::lowered(s).skip(s.len() - extension.len()) =~= text::lowered(end));
}

/// A file of the imports is safe for what its extension says: sound, a picture, a
/// background or lyrics.
pub proof fn files_are_safe_by_extension(name: Seq<char>, end: Seq<char>)
    requires
        leads_down(name + end),
        encode_utf8(name + end).len() <= 240,
    ensures
        ({
            let path = IMPORT_ROOT@ + "/"@ + (name + end);
            let e = text::lowered(end);
            &&& e == ".mp3"@ ==> safe_audio(path)
            &&& e == ".jpg"@ || e == ".jpeg"@ || e == ".png"@ || e == ".bin"@ ==> safe_cover(path)
            &&& e == ".bin"@ ==> safe_background(path)
            &&& e == ".lrc"@ || e == ".json"@ || e == ".txt"@ ==> safe_lyrics(path)
        }),
{
    let relative = name + end;
    lemma_below_joined(IMPORT_ROOT@, relative);
    let e = text::lowered(end);
    extensions_end_a_name(name, end, e);
    let path = IMPORT_ROOT@ + "/"@ + relative;
    assert(file_part(path) == relative);
}

/// A song is normalized in its paths alone.
pub proof fn normalizing_changes_paths_alone(before: Song, after: Song)
    requires
        song_normalized(before, after),
    ensures
        after.id == before.id,
        after.name == before.name,
        after.artists == before.artists,
        after.duration_ms == before.duration_ms,
        after.local_path is Some == before.local_path is Some,
        after.lyrics_path is Some == before.lyrics_path is Some,
        song_safe(after) <==> safe_when_normalized(before),
{
}

/// Every file of a song that is taken from the library stands below the directory of
/// the imports; a song without sound is not taken.
pub proof fn songs_stay_inside(s: Song)
    requires
        song_safe(s),
    ensures
        s.local_path matches Some(p) && p@ == IMPORT_ROOT@ + "/"@ + file_part(p@) && has_extension(
            file_part(p@),
            ".mp3"@,
        ),
        s.album.cover_url@.len() > 0 ==> leads_down(file_part(s.album.cover_url@))
            && s.album.cover_url@ == IMPORT_ROOT@ + "/"@ + file_part(s.album.cover_url@),
        s.album.background_url@.len() > 0 ==> leads_down(file_part(s.album.background_url@))
            && s.album.background_url@ == IMPORT_ROOT@ + "/"@ + file_part(s.album.background_url@),
        s.lyrics_path matches Some(p) ==> leads_down(file_part(p@)) && p@ == IMPORT_ROOT@ + "/"@
            + file_part(p@),
{
    safe_paths_stay_inside(s.local_path->0@);
    if s.album.cover_url@.len() > 0 {
        safe_paths_stay_inside(s.album.cover_url@);
    }
    if s.album.background_url@.len() > 0 {
        safe_paths_stay_inside(s.album.background_url@);
    }
    if s.lyrics_path is Some {
        safe_paths_stay_inside(s.lyrics_path->0@);
    }
}

/// A library is taken only whole: one song that leads elsewhere is enough to refuse
/// it.
pub proof fn one_bad_song_is_enough(tracks: Seq<Song>, i: int)
    requires
        0 <= i < tracks.len(),
        tracks[i].local_path is None || !safe_audio(normalized(tracks[i].local_path->0@)),
    ensures
        !all_safe(tracks),
{
    if all_safe(tracks) {
        assert(safe_when_normalized(tracks[i]));
    }
}

} // verus!
