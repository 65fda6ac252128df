//! What the player reads of the storage of the watch: paths, bounded files and the
//! images that pages show.
use vstd::prelude::*;
use vstd::string::*;
use vstd::utf8::*;

use crate::lyra_import::artwork;
use crate::player::persistence::{self, PersistenceError, IMPORT_ROOT, LEGACY_IMPORT_ROOT};
use crate::text;

verus! {

/// How long the library file may be.
pub const MAX_MANIFEST_BYTES: usize = 262144;

/// The bytes at the start of an image that describe it.
pub const IMAGE_HEADER_BYTES: usize = 12;

// ---------------------------------------------------------------- paths

/// A path as system calls take it: its bytes and a zero byte.
pub fn c_path(path: &str) -> (r: Result<Vec<u8>, i32>)
    ensures
        match r {
            Ok(v) => !encode_utf8(path@).contains(0u8) && v@ == encode_utf8(path@).push(0u8),
            Err(e) => encode_utf8(path@).contains(0u8) && e == -1,
        },
{
    let bytes = path.as_bytes();
    let total: usize = bytes.len();
    let mut out: Vec<u8> = Vec::new();
    let mut i: usize = 0;
    while i < total
        invariant
            i <= total,
            total == bytes@.len(),
            bytes@ == encode_utf8(path@),
            out@ == bytes@.take(i as int),
            !out@.contains(0u8),
        decreases total - i,
    {
        if bytes[i] == 0 {
            assert(encode_utf8(path@)[i as int] == 0);
            return Err(-1);
        }
        let ghost before = out@;
        out.push(bytes[i]);
        assert(out@ =~= bytes@.take(i + 1));
        assert(!out@.contains(0u8)) by {
            assert forall|k: int| 0 <= k < out@.len() implies out@[k] != 0u8 by {
                if k < before.len() {
                    assert(before.contains(before[k]));
                }
            }
        }
        i += 1;
    }
    assert(bytes@.take(i as int) =~= bytes@);
    out.push(0);
    Ok(out)
}

/// Whether a path may be looked at: it begins with a directory of imports.
pub open spec fn known(path: Seq<char>) -> bool {
    text::begins_with(path, IMPORT_ROOT@) || text::begins_with(path, LEGACY_IMPORT_ROOT@)
}

/// Where the file of a path stood in former times.
pub open spec fn former(path: Seq<char>) -> Option<Seq<char>> {
    if known(path) {
        match persistence::below(path, IMPORT_ROOT@) {
            Some(relative) => Some(LEGACY_IMPORT_ROOT@ + "/"@ + relative),
            None => None,
        }
    } else {
        None
    }
}

/// Where the file of a path stood in former times.
pub fn former_path(path: &str) -> (r: Option<String>)
    ensures
        text::opt_text(r) == former(path@),
{
    if !text::starts_with(path, IMPORT_ROOT) && !text::starts_with(path, LEGACY_IMPORT_ROOT) {
        return None;
    }
    match persistence::relative_to(path, IMPORT_ROOT) {
        Some(relative) => Some(text::cat3(LEGACY_IMPORT_ROOT, "/", relative.as_str())),
        None => None,
    }
}

/// Finds the file of a path: where the path says, or else where it stood in former
/// times. The caller says which of the two are present.
pub fn resolve_path(path: &str, present: bool, former_present: bool) -> (r: Option<String>)
    ensures
        text::opt_text(r) == if known(path@) && present {
            Some(path@)
        } else if former_present {
            former(path@)
        } else {
            None
        },
{
    if present && (text::starts_with(path, IMPORT_ROOT) || text::starts_with(
        path,
        LEGACY_IMPORT_ROOT,
    )) {
        return Some(path.to_owned());
    }
    if former_present {
        former_path(path)
    } else {
        None
    }
}

/// The former place of a file leads back to where it stands now.
pub proof fn former_paths_lead_back(path: Seq<char>)
    requires
        former(path) is Some,
    ensures
        persistence::normalized(former(path)->0) == path,
{
    let relative = persistence::below(path, IMPORT_ROOT@)->0;
    let rest = path.skip(IMPORT_ROOT@.len() as int);
    reveal_strlit("/");
    assert(path =~= IMPORT_ROOT@ + "/"@ + relative) by {
        assert(rest.take(1) =~= "/"@);
        assert(path =~= IMPORT_ROOT@ + rest);
        assert(rest =~= "/"@ + relative);
    }
    persistence::normalizing_moves_the_root(relative);
}

// ---------------------------------------------------------------- files

/// What a read of a chunk makes of a file that is gathered.
pub enum ReadStep {
    /// There is more to read.
    More(Vec<u8>),
    /// This is the file.
    Done(Vec<u8>),
    Failed(i32),
}

/// Adds a chunk to what was read of a file that may not be longer than a limit. An
/// answer below zero is an error, and zero the end of the file.
pub fn read_bounded(read: Vec<u8>, chunk: &[u8], count: i32, limit: usize) -> (r: ReadStep)
    requires
        count <= chunk@.len(),
        read@.len() <= limit,
    ensures
        match r {
            ReadStep::More(v) => count > 0 && read@.len() + count <= limit && v@ == read@
                + chunk@.take(count as int),
            ReadStep::Done(v) => count == 0 && v@ == read@,
            ReadStep::Failed(e) => (count < 0 && e == count) || (count > 0 && read@.len() + count
                > limit && e == -2),
        },
{
    if count < 0 {
        return ReadStep::Failed(count);
    }
    if count == 0 {
        return ReadStep::Done(read);
    }
    let n: usize = count as usize;
    let held: usize = read.len();
    if n > limit - held {
        return ReadStep::Failed(-2);
    }
    let mut out = read;
    let ghost before = out@;
    let mut i: usize = 0;
    while i < n
        invariant
            i <= n,
            n <= chunk@.len(),
            out@ == before + chunk@.take(i as int),
        decreases n - i,
    {
        out.push(chunk[i]);
        i += 1;
        assert(out@ =~= before + chunk@.take(i as int));
    }
    ReadStep::More(out)
}

/// The number of an error.
pub open spec fn error_number(error: PersistenceError<i32>) -> int {
    match error {
        PersistenceError::Storage(e) => e as int,
        PersistenceError::Json => -5,
        PersistenceError::Version => -6,
        PersistenceError::UnsafePath => -7,
    }
}

pub fn map_error(error: PersistenceError<i32>) -> (r: i32)
    ensures
        r == error_number(error),
{
    match error {
        PersistenceError::Storage(e) => e,
        PersistenceError::Json => -5,
        PersistenceError::Version => -6,
        PersistenceError::UnsafePath => -7,
    }
}

// ---------------------------------------------------------------- images

/// Whether a file is an image of the watch with such sides: its header says so, and
/// its length fits.
pub open spec fn shows(header: Seq<u8>, length: int, width: u16, height: u16) -> bool {
    &&& width * 4 <= 65535
    &&& header == artwork::bin_header(width as int, height as int)
    &&& length == 12 + width * height * 4
}

/// Checks the header and the length of an image.
pub fn validate_lvgl_v9_image(header: &[u8], length: i64, width: u16, height: u16) -> (r: bool)
    requires
        header@.len() == IMAGE_HEADER_BYTES,
    ensures
        r == shows(header@, length as int, width, height),
{
    if width > 16383 {
        return false;
    }
    let w: i64 = width as i64;
    let h: i64 = height as i64;
    assert(0 <= w * h <= 16383 * 65535) by (nonlinear_arith)
        requires
            0 <= w <= 16383,
            0 <= h <= 65535,
    ;
    let expected: i64 = 12 + w * h * 4;
    let stride: u16 = width * 4;
    let ghost want = artwork::bin_header(width as int, height as int);
    let same = header[0] == 0x19 && header[1] == 0x10 && header[2] == 0 && header[3] == 0
        && header[4] == (width % 256) as u8 && header[5] == (width / 256) as u8 && header[6] == (
    height % 256) as u8 && header[7] == (height / 256) as u8 && header[8] == (stride % 256) as u8
        && header[9] == (stride / 256) as u8 && header[10] == 0 && header[11] == 0;
    proof {
        if same {
            assert(header@ =~= want);
        } else {
            assert(want[4] == (width % 256) as u8);
        }
    }
    same && length == expected
}

/// Every image that an import encodes is one that the player shows.
pub proof fn encoded_images_are_shown(width: u16, height: u16, pixels: Seq<u8>)
    requires
        artwork::bin_fault(width as int, height as int) is None,
        pixels.len() == width as int * height as int * 4,
    ensures
        ({
            let file = artwork::bin_header(width as int, height as int) + artwork::bin_pixels(
                pixels,
            );
            shows(file.take(IMAGE_HEADER_BYTES as int), file.len() as int, width, height)
        }),
{
    let header = artwork::bin_header(width as int, height as int);
    assert((header + artwork::bin_pixels(pixels)).take(12) =~= header);
}

/// The player knows what is in the directory of the imports, present or former, and
/// looks in the former one only for what is below the present one.
pub proof fn only_imports_are_known(relative: Seq<char>, path: Seq<char>)
    ensures
        known(IMPORT_ROOT@ + "/"@ + relative),
        former(IMPORT_ROOT@ + "/"@ + relative) == Some(LEGACY_IMPORT_ROOT@ + "/"@ + relative),
        !text::begins_with(path, IMPORT_ROOT@) ==> former(path) is None,
{
    let p = IMPORT_ROOT@ + "/"@ + relative;
    assert(p.subrange(0, IMPORT_ROOT@.len() as int) =~= IMPORT_ROOT@);
    persistence::paths_below_are_joined(IMPORT_ROOT@, relative, p);
    if former(path) is Some {
        persistence::paths_below_are_joined(IMPORT_ROOT@, relative, path);
        let r = persistence::below(path, IMPORT_ROOT@)->0;
        assert(path.subrange(0, IMPORT_ROOT@.len() as int) =~= IMPORT_ROOT@);
    }
}

/// A picture is shown only with the sides that are asked for and as many bytes as
/// they need.
pub proof fn pictures_have_the_sides_asked_for(
    header: Seq<u8>,
    length: int,
    width: u16,
    height: u16,
)
    requires
        shows(header, length, width, height),
    ensures
        artwork::word_at(header, 4) == width,
        artwork::word_at(header, 6) == height,
        artwork::word_at(header, 8) == 4 * width,
        length == 12 + 4 * width * height,
{
    artwork::headers_tell_the_sides(width as int, height as int);
    assert(12 + width * height * 4 == 12 + 4 * width * height) by (nonlinear_arith);
}

/// The errors of reading the library are told apart from one another, and an error
/// of the storage is told as it is.
pub proof fn library_errors_are_told_apart(e: i32)
    ensures
        error_number(PersistenceError::Storage(e)) == e,
        error_number(PersistenceError::Json) != error_number(PersistenceError::Version),
        error_number(PersistenceError::Json) != error_number(PersistenceError::UnsafePath),
        error_number(PersistenceError::Version) != error_number(PersistenceError::UnsafePath),
        error_number(PersistenceError::Json) < 0 && error_number(PersistenceError::Version) < 0
            && error_number(PersistenceError::UnsafePath) < 0,
{
}

} // verus!
