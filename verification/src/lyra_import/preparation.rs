//! Making a song of the service ready for an import: its address, its audio, its
//! images and its lyrics are loaded one after the other.
use vstd::prelude::*;
use vstd::string::*;

use crate::json::{JsonObject, JsonView};
use crate::lyra_import::artwork::PreparedArtwork;
use crate::lyra_import::import::ImportAsset;
use crate::lyra_import::netease::{
    self, PreparedCloud, SongAddress, MAX_AUDIO_BYTES, MAX_COVER_BYTES, MAX_LYRICS_BYTES,
};
use crate::lyra_import::state::CloudSong;

verus! {

pub const SONG_URL_PATH: &'static str = "/api/song/enhance/player/url";

pub const LYRIC_PATH: &'static str = "/api/song/lyric/v1";

pub const AUDIO_NAME: &'static str = "audio.mp3";

pub const COVER_SOURCE_NAME: &'static str = "cover-source.jpg";

pub const LYRICS_NAME: &'static str = "lyrics.json";

/// What a preparation waits for.
#[derive(Clone, Copy, Debug, PartialEq, Eq, Structural)]
pub enum Stage {
    Address,
    Audio,
    Cover,
    Artwork,
    Lyrics,
    Saving,
}

/// A song on its way to an import, with what was loaded of it.
pub struct Preparation {
    pub song: CloudSong,
    pub stage: Stage,
    pub audio: Option<ImportAsset>,
    pub images: Option<PreparedArtwork>,
    /// The size of the lyrics that are being saved.
    pub lyrics_size: u64,
}

/// What the host is to do next.
pub enum Task {
    /// Ask the service and report a [`Reply::Address`] or a [`Reply::Lyrics`].
    Ask { path: &'static str, data: JsonObject },
    /// Load a file of at most `limit` bytes and report a [`Reply::Loaded`].
    Download { url: String, name: &'static str, limit: u64 },
    /// Make the images from a loaded file and report a [`Reply::Artwork`].
    MakeArtwork { source: &'static str },
    /// Keep the lyrics that were answered and report a [`Reply::Saved`].
    Save { name: &'static str },
}

/// How a task went.
pub enum Reply {
    Address { code: i32, data: Vec<SongAddress> },
    Loaded { path: String, size: u64 },
    Artwork(PreparedArtwork),
    Lyrics { size: usize },
    Saved { path: String },
    Fault(String),
}

/// How far a preparation has come.
pub enum Progress {
    Next(Preparation, Task),
    Finished(PreparedCloud),
    Failed(String),
}

impl Stage {
    /// The place of a stage in the order of loading.
    pub open spec fn rank(self) -> nat {
        match self {
            Stage::Address => 0,
            Stage::Audio => 1,
            Stage::Cover => 2,
            Stage::Artwork => 3,
            Stage::Lyrics => 4,
            Stage::Saving => 5,
        }
    }
}

impl Preparation {
    /// From the images on the audio is there.
    pub open spec fn wf(self) -> bool {
        self.stage != Stage::Address && self.stage != Stage::Audio ==> self.audio is Some
    }

    /// Whether a reply is one to the task of the stage.
    pub open spec fn expects(self, reply: Reply) -> bool {
        match reply {
            Reply::Address { .. } => self.stage == Stage::Address,
            Reply::Loaded { .. } => self.stage == Stage::Audio || self.stage == Stage::Cover,
            Reply::Artwork(_) => self.stage == Stage::Artwork,
            Reply::Lyrics { .. } => self.stage == Stage::Lyrics,
            Reply::Saved { .. } => self.stage == Stage::Saving,
            Reply::Fault(_) => true,
        }
    }
}

/// Whether the service is asked for something next.
pub open spec fn asks(
    p: Progress,
    after: Preparation,
    path: Seq<char>,
    data: Map<Seq<char>, JsonView>,
) -> bool {
    p matches Progress::Next(a, Task::Ask { path: asked, data: d }) && a == after && asked@ == path
        && d@ == data
}

/// Whether a file is loaded next.
pub open spec fn loads(
    p: Progress,
    after: Preparation,
    url: Seq<char>,
    name: Seq<char>,
    limit: u64,
) -> bool {
    p matches Progress::Next(a, Task::Download { url: u, name: n, limit: l }) && a == after && u@
        == url && n@ == name && l == limit
}

/// Whether the lyrics are asked for next.
pub open spec fn asks_lyrics(
    p: Progress,
    before: Preparation,
    audio: Option<ImportAsset>,
    images: Option<PreparedArtwork>,
) -> bool {
    asks(
        p,
        Preparation { stage: Stage::Lyrics, audio, images, ..before },
        LYRIC_PATH@,
        netease::lyric_view(before.song.id),
    )
}

/// Whether the song is handed over with its assets.
pub open spec fn finishes(
    p: Progress,
    before: Preparation,
    lyrics: Option<ImportAsset>,
) -> bool {
    p matches Progress::Finished(r) && r.song == before.song && r.assets@ == netease::song_assets(
        before.audio->0,
        before.images,
        lyrics,
    )
}

/// Whether a reply leads to a progress.
pub open spec fn stepped(before: Preparation, reply: Reply, p: Progress) -> bool {
    match reply {
        Reply::Address { code, data } => match netease::first_address(code, data@) {
            Ok(url) => loads(
                p,
                Preparation { stage: Stage::Audio, ..before },
                url,
                AUDIO_NAME@,
                MAX_AUDIO_BYTES,
            ),
            Err(e) => p matches Progress::Failed(m) && m@ == e,
        },
        Reply::Loaded { path, size } => if before.stage == Stage::Audio {
            let audio = Some(netease::audio_asset(path, size));
            if before.song.cover_url@.len() == 0 {
                asks_lyrics(p, before, audio, before.images)
            } else {
                loads(
                    p,
                    Preparation { stage: Stage::Cover, audio, ..before },
                    before.song.cover_url@,
                    COVER_SOURCE_NAME@,
                    MAX_COVER_BYTES,
                )
            }
        } else {
            p matches Progress::Next(a, Task::MakeArtwork { source }) && a == (Preparation {
                stage: Stage::Artwork,
                ..before
            }) && source@ == COVER_SOURCE_NAME@
        },
        Reply::Artwork(images) => asks_lyrics(p, before, before.audio, Some(images)),
        Reply::Lyrics { size } => if size <= MAX_LYRICS_BYTES {
            p matches Progress::Next(a, Task::Save { name }) && a == (Preparation {
                stage: Stage::Saving,
                lyrics_size: size as u64,
                ..before
            }) && name@ == LYRICS_NAME@
        } else {
            finishes(p, before, None)
        },
        Reply::Saved { path } => finishes(
            p,
            before,
            Some(netease::lyrics_asset(path, before.lyrics_size, "json")),
        ),
        Reply::Fault(e) => if before.stage == Stage::Cover || before.stage == Stage::Artwork {
            asks_lyrics(p, before, before.audio, before.images)
        } else {
            p == Progress::Failed(e)
        },
    }
}

/// Begins to make a song ready.
pub fn prepare(song: CloudSong, audio_bitrate: u32) -> (r: (Preparation, Task))
    ensures
        r.0.wf(),
        asks(
            Progress::Next(r.0, r.1),
            Preparation { song, stage: Stage::Address, audio: None, images: None, lyrics_size: 0 },
            SONG_URL_PATH@,
            netease::song_url_view(song.id, netease::offered_bitrate(audio_bitrate)),
        ),
{
    let data = netease::song_url_data(song.id, netease::normalized_audio_bitrate(audio_bitrate));
    (
        Preparation { song, stage: Stage::Address, audio: None, images: None, lyrics_size: 0 },
        Task::Ask { path: SONG_URL_PATH, data },
    )
}

fn ask_lyrics(before: Preparation) -> (r: Progress)
    ensures
        asks_lyrics(r, before, before.audio, before.images),
{
    let data = netease::lyric_data(before.song.id);
    Progress::Next(
        Preparation { stage: Stage::Lyrics, ..before },
        Task::Ask { path: LYRIC_PATH, data },
    )
}

fn finish(before: Preparation, audio: ImportAsset, lyrics: Option<ImportAsset>) -> (r: Progress)
    ensures
        r matches Progress::Finished(c) && c.song == before.song && c.assets@
            == netease::song_assets(audio, before.images, lyrics),
{
    Progress::Finished(
        PreparedCloud {
            song: before.song,
            assets: netease::gather_assets(audio, before.images, lyrics),
        },
    )
}

impl Preparation {
    /// Takes the reply to a task. A song without images is still made ready; any
    /// other fault ends its preparation.
    pub fn step(self, reply: Reply) -> (r: Progress)
        requires
            self.wf(),
            self.expects(reply),
        ensures
            stepped(self, reply, r),
            r matches Progress::Next(after, _) ==> after.wf(),
    {
        let mut p = self;
        match reply {
            Reply::Address { code, data } => match netease::song_address(code, &data) {
                Ok(url) => {
                    p.stage = Stage::Audio;
                    Progress::Next(
                        p,
                        Task::Download { url, name: AUDIO_NAME, limit: MAX_AUDIO_BYTES },
                    )
                },
                Err(e) => Progress::Failed(e),
            },
            Reply::Loaded { path, size } => if p.stage == Stage::Audio {
                p.audio = Some(ImportAsset::audio(path, size));
                if p.song.cover_url.as_str().is_empty() {
                    ask_lyrics(p)
                } else {
                    let url = p.song.cover_url.clone();
                    p.stage = Stage::Cover;
                    Progress::Next(
                        p,
                        Task::Download { url, name: COVER_SOURCE_NAME, limit: MAX_COVER_BYTES },
                    )
                }
            } else {
                p.stage = Stage::Artwork;
                Progress::Next(p, Task::MakeArtwork { source: COVER_SOURCE_NAME })
            },
            Reply::Artwork(images) => {
                p.images = Some(images);
                ask_lyrics(p)
            },
            Reply::Lyrics { size } => if size <= MAX_LYRICS_BYTES {
                p.stage = Stage::Saving;
                p.lyrics_size = size as u64;
                Progress::Next(p, Task::Save { name: LYRICS_NAME })
            } else {
                let audio = p.audio.take().unwrap();
                finish(p, audio, None)
            },
            Reply::Saved { path } => {
                let lyrics = ImportAsset::lyrics(path, p.lyrics_size, "json");
                let audio = p.audio.take().unwrap();
                finish(p, audio, Some(lyrics))
            },
            Reply::Fault(e) => if p.stage == Stage::Cover || p.stage == Stage::Artwork {
                ask_lyrics(p)
            } else {
                Progress::Failed(e)
            },
        }
    }
}

/// Every reply brings a preparation further, so that it ends.
pub proof fn preparation_advances(before: Preparation, reply: Reply, p: Progress)
    requires
        before.expects(reply),
        stepped(before, reply, p),
    ensures
        p matches Progress::Next(after, _) ==> after.stage.rank() > before.stage.rank(),
{
}

/// A song whose images cannot be had is made ready without them.
pub proof fn missing_images_are_forgiven(before: Preparation, e: String, p: Progress)
    requires
        before.stage == Stage::Cover || before.stage == Stage::Artwork,
        stepped(before, Reply::Fault(e), p),
    ensures
        p matches Progress::Next(after, Task::Ask { .. }) && after.stage == Stage::Lyrics
            && after.images == before.images,
{
}

/// A preparation is for one song from its start to its end, and what was loaded is
/// kept until then.
pub proof fn preparation_keeps_what_it_has(before: Preparation, reply: Reply, p: Progress)
    requires
        stepped(before, reply, p),
        before.wf(),
        before.expects(reply),
    ensures
        p matches Progress::Next(after, _) ==> {
            &&& after.song == before.song
            &&& before.audio is Some && before.stage != Stage::Audio ==> after.audio == before.audio
            &&& before.images is Some && before.stage != Stage::Artwork ==> after.images
                == before.images
        },
        p matches Progress::Finished(c) ==> c.song == before.song && c.assets@.len() >= 1
            && c.assets@[0] == before.audio->0,
{
}

/// The steps follow one another: the address of the audio, the audio, the cover
/// where the song has one, the images, the lyrics, and an end in which lyrics that
/// are too long are left out.
pub proof fn preparation_takes_its_steps(before: Preparation, reply: Reply, p: Progress)
    requires
        stepped(before, reply, p),
        before.wf(),
        before.expects(reply),
    ensures
        reply is Address ==> p is Failed || (p matches Progress::Next(a, Task::Download { name, .. })
            && a.stage == Stage::Audio && name@ == "audio.mp3"@),
        reply is Loaded && before.stage == Stage::Audio && before.song.cover_url@.len() > 0 ==> (
        p matches Progress::Next(a, Task::Download { url, .. }) && a.stage == Stage::Cover && url@
            == before.song.cover_url@ && a.audio is Some),
        reply is Loaded && before.stage == Stage::Audio && before.song.cover_url@.len() == 0 ==> (
        p matches Progress::Next(a, Task::Ask { path, .. }) && a.stage == Stage::Lyrics && path@
            == "/api/song/lyric/v1"@ && a.audio is Some),
        reply is Loaded && before.stage == Stage::Cover ==> (p matches Progress::Next(
            a,
            Task::MakeArtwork { .. },
        ) && a.stage == Stage::Artwork),
        reply matches Reply::Artwork(i) ==> (p matches Progress::Next(a, Task::Ask { path, .. })
            && a.stage == Stage::Lyrics && path@ == "/api/song/lyric/v1"@ && a.images == Some(i)),
        reply matches Reply::Lyrics { size } ==> size > 2 * 1024 * 1024 ==> p is Finished,
        reply matches Reply::Lyrics { size } ==> size <= 2 * 1024 * 1024 ==> (
        p matches Progress::Next(a, Task::Save { .. }) && a.lyrics_size == size),
        reply is Saved ==> p is Finished,
        reply matches Reply::Fault(e) ==> before.stage != Stage::Cover && before.stage
            != Stage::Artwork ==> p == Progress::Failed(e),
{
}

/// What is loaded is loaded from where the service says, and no more of it than an
/// import takes.
pub proof fn loading_is_limited(before: Preparation, reply: Reply, p: Progress)
    requires
        stepped(before, reply, p),
        before.wf(),
        before.expects(reply),
    ensures
        p matches Progress::Next(a, Task::Download { url, name, limit }) ==> {
            &&& a.stage == Stage::Audio ==> limit == 64 * 1024 * 1024 && (
            reply matches Reply::Address { code, data } && netease::first_address(code, data@)
                == Ok::<Seq<char>, Seq<char>>(url@))
            &&& a.stage == Stage::Cover ==> limit == 4 * 1024 * 1024 && url@ == before.song.cover_url@
            &&& a.stage == Stage::Audio || a.stage == Stage::Cover
        },
        reply matches Reply::Loaded { path, size } ==> before.stage == Stage::Audio ==> (
        p matches Progress::Next(a, _) && (a.audio matches Some(f) && f.path == path && f.size == size)),
        reply matches Reply::Saved { path } ==> (p matches Progress::Finished(c) && c.assets@.last().path
            == path && c.assets@.last().size == before.lyrics_size),
{
}

} // verus!
