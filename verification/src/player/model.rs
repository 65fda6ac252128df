//! Songs as the library file describes them.
use vstd::prelude::*;
use vstd::string::*;

verus! {

#[derive(Clone, Debug, PartialEq, Eq)]
pub struct ArtistRef {
    pub id: u64,
    pub name: String,
}

#[derive(Clone, Debug, PartialEq, Eq)]
pub struct AlbumRef {
    pub id: u64,
    pub name: String,
    pub cover_url: String,
    pub background_url: String,
}

#[derive(Clone, Debug, PartialEq, Eq)]
pub struct Song {
    pub id: u64,
    pub name: String,
    pub artists: Vec<ArtistRef>,
    pub album: AlbumRef,
    pub duration_ms: u32,
    pub local_path: Option<String>,
    pub lyrics_path: Option<String>,
}

impl Default for ArtistRef {
    fn default() -> (r: Self)
        ensures
            r.id == 0,
            r.name@.len() == 0,
    {
        ArtistRef { id: 0, name: String::new() }
    }
}

impl Default for AlbumRef {
    fn default() -> (r: Self)
        ensures
            r.id == 0,
            r.name@.len() == 0,
            r.cover_url@.len() == 0,
            r.background_url@.len() == 0,
    {
        AlbumRef {
            id: 0,
            name: String::new(),
            cover_url: String::new(),
            background_url: String::new(),
        }
    }
}

impl Default for Song {
    fn default() -> (r: Self)
        ensures
            r.id == 0,
            r.name@.len() == 0,
            r.artists@.len() == 0,
            r.album.id == 0,
            r.album.name@.len() == 0,
            r.album.cover_url@.len() == 0,
            r.album.background_url@.len() == 0,
            r.duration_ms == 0,
            r.local_path is None,
            r.lyrics_path is None,
    {
        Song {
            id: 0,
            name: String::new(),
            artists: Vec::new(),
            album: AlbumRef::default(),
            duration_ms: 0,
            local_path: None,
            lyrics_path: None,
        }
    }
}

/// The names of artists, with a separator between them.
pub open spec fn artist_names(artists: Seq<ArtistRef>) -> Seq<char>
    decreases artists.len(),
{
    if artists.len() == 0 {
        Seq::empty()
    } else if artists.len() == 1 {
        artists[0].name@
    } else {
        artist_names(artists.drop_last()) + " / "@ + artists.last().name@
    }
}

impl Song {
    pub fn artist_line(&self) -> (r: String)
        ensures
            r@ == artist_names(self.artists@),
    {
        let mut out = String::new();
        let mut i: usize = 0;
        assert(out@ =~= artist_names(self.artists@.take(0)));
        while i < self.artists.len()
            invariant
                i <= self.artists@.len(),
                out@ == artist_names(self.artists@.take(i as int)),
            decreases self.artists.len() - i,
        {
            let ghost before = out@;
            proof {
                assert(self.artists@.take(i + 1).drop_last() =~= self.artists@.take(i as int));
            }
            if i != 0 {
                out.append(" / ");
            }
            out.append(self.artists[i].name.as_str());
            proof {
                if i == 0 {
                    assert(before =~= Seq::empty());
                    assert(out@ =~= self.artists@[0].name@);
                    assert(self.artists@.take(1)[0] == self.artists@[0]);
                }
            }
            i = i + 1;
        }
        assert(self.artists@.take(i as int) =~= self.artists@);
        out
    }
}

/// The line of the artists names all of them, in their order.
pub proof fn all_artists_are_named(artists: Seq<ArtistRef>)
    ensures
        artist_names(artists) == crate::text::joined(
            artists.map_values(|a: ArtistRef| a.name@),
            " / "@,
        ),
    decreases artists.len(),
{
    let names = artists.map_values(|a: ArtistRef| a.name@);
    if artists.len() > 1 {
        all_artists_are_named(artists.drop_last());
        assert(names.drop_last() =~= artists.drop_last().map_values(|a: ArtistRef| a.name@));
    } else if artists.len() == 1 {
        assert(names[0] == artists[0].name@);
    }
}

} // verus!
