//! Catalog entity types and normalization.
//!
//! The raw types mirror what the catalog API returns for albums, tracks
//! and artists; the normalized types are the flat rows the store holds.
//! Normalization flattens an album collection into album, track and
//! artist rows, recording track-to-artist credits as adjacency lists and
//! keeping the first occurrence of every credited artist.

use vstd::prelude::*;

verus! {

/// Mathematical view of an image attachment.
#[verifier::ext_equal]
pub ghost struct ImageModel {
    pub height: Option<u32>,
    pub url: Seq<char>,
    pub width: Option<u32>,
}

/// Mathematical view of an artist credit.
#[verifier::ext_equal]
pub ghost struct ArtistModel {
    pub id: Seq<char>,
    pub name: Seq<char>,
}

/// Mathematical view of a raw track with its artist credits.
#[verifier::ext_equal]
pub ghost struct TrackModel {
    pub id: Seq<char>,
    pub name: Seq<char>,
    pub preview_url: Option<Seq<char>>,
    pub artists: Seq<ArtistModel>,
}

/// Mathematical view of a raw album with its tracks.
#[verifier::ext_equal]
pub ghost struct AlbumModel {
    pub id: Seq<char>,
    pub name: Seq<char>,
    pub release_date: Seq<char>,
    pub album_type: Seq<char>,
    pub images: Seq<ImageModel>,
    pub tracks: Seq<TrackModel>,
}

/// Mathematical view of a normalized track row: credits are artist ids.
#[verifier::ext_equal]
pub ghost struct NormTrackModel {
    pub id: Seq<char>,
    pub name: Seq<char>,
    pub preview_url: Option<Seq<char>>,
    pub artist_ids: Seq<Seq<char>>,
}

/// Mathematical view of a normalized album row: tracks are track ids.
#[verifier::ext_equal]
pub ghost struct NormAlbumModel {
    pub id: Seq<char>,
    pub name: Seq<char>,
    pub release_date: Seq<char>,
    pub album_type: Seq<char>,
    pub track_ids: Seq<Seq<char>>,
}

/// The view of an optional string.
pub open spec fn opt_str_view(o: Option<String>) -> Option<Seq<char>> {
    match o {
        Some(s) => Some(s@),
        None => None,
    }
}

/// An image attachment on an album.
#[derive(Debug, Clone, PartialEq, Eq, Hash)]
pub struct Image {
    pub height: Option<u32>,
    pub url: String,
    pub width: Option<u32>,
}

impl View for Image {
    type V = ImageModel;

    open spec fn view(&self) -> ImageModel {
        ImageModel { height: self.height, url: self.url@, width: self.width }
    }
}

/// An artist as credited on a track.
#[derive(Debug, Clone, PartialEq, Eq, Hash)]
pub struct Artist {
    pub id: String,
    pub name: String,
}

impl View for Artist {
    type V = ArtistModel;

    open spec fn view(&self) -> ArtistModel {
        ArtistModel { id: self.id@, name: self.name@ }
    }
}

/// A raw track as returned by the catalog, with full artist credits.
#[derive(Debug, Clone, PartialEq, Eq, Hash)]
pub struct Track {
    pub id: String,
    pub name: String,
    pub preview_url: Option<String>,
    pub artists: Vec<Artist>,
}

impl View for Track {
    type V = TrackModel;

    open spec fn view(&self) -> TrackModel {
        TrackModel {
            id: self.id@,
            name: self.name@,
            preview_url: opt_str_view(self.preview_url),
            artists: self.artists@.map_values(|a: Artist| a@),
        }
    }
}

/// A raw album as returned by the catalog.
#[derive(Debug, Clone, PartialEq, Eq, Hash)]
pub struct Album {
    pub id: String,
    pub name: String,
    pub release_date: String,
    pub album_type: String,
    pub images: Vec<Image>,
    pub tracks: Vec<Track>,
}

impl View for Album {
    type V = AlbumModel;

    open spec fn view(&self) -> AlbumModel {
        AlbumModel {
            id: self.id@,
            name: self.name@,
            release_date: self.release_date@,
            album_type: self.album_type@,
            images: self.images@.map_values(|x: Image| x@),
            tracks: self.tracks@.map_values(|t: Track| t@),
        }
    }
}

/// A normalized track row: artist credits flattened to artist ids.
#[derive(Debug, Clone, PartialEq, Eq, Hash)]
pub struct NormalizedTrack {
    pub id: String,
    pub name: String,
    pub preview_url: Option<String>,
    pub artists: Vec<String>,
}

impl View for NormalizedTrack {
    type V = NormTrackModel;

    open spec fn view(&self) -> NormTrackModel {
        NormTrackModel {
            id: self.id@,
            name: self.name@,
            preview_url: opt_str_view(self.preview_url),
            artist_ids: self.artists@.map_values(|s: String| s@),
        }
    }
}

/// A normalized artist row.
#[derive(Debug, Clone, PartialEq, Eq, Hash)]
pub struct NormalizedArtist {
    pub id: String,
    pub name: String,
}

impl View for NormalizedArtist {
    type V = ArtistModel;

    open spec fn view(&self) -> ArtistModel {
        ArtistModel { id: self.id@, name: self.name@ }
    }
}

/// A normalized album row: tracks flattened to track ids.
#[derive(Debug, Clone, PartialEq, Eq, Hash)]
pub struct NormalizedAlbum {
    pub id: String,
    pub name: String,
    pub release_date: String,
    pub album_type: String,
    pub tracks: Vec<String>,
}

impl View for NormalizedAlbum {
    type V = NormAlbumModel;

    open spec fn view(&self) -> NormAlbumModel {
        NormAlbumModel {
            id: self.id@,
            name: self.name@,
            release_date: self.release_date@,
            album_type: self.album_type@,
            track_ids: self.tracks@.map_values(|s: String| s@),
        }
    }
}

/// What normalization makes of one raw track: the same descriptive
/// fields, with the credit list reduced to artist ids.
pub open spec fn norm_of_track(t: TrackModel) -> NormTrackModel {
    NormTrackModel {
        id: t.id,
        name: t.name,
        preview_url: t.preview_url,
        artist_ids: t.artists.map_values(|a: ArtistModel| a.id),
    }
}

/// What normalization makes of one raw album.
pub open spec fn norm_of_album(a: AlbumModel) -> NormAlbumModel {
    NormAlbumModel {
        id: a.id,
        name: a.name,
        release_date: a.release_date,
        album_type: a.album_type,
        track_ids: a.tracks.map_values(|t: TrackModel| t.id),
    }
}

/// All tracks of an album collection, album by album, in order.
pub open spec fn album_tracks(s: Seq<AlbumModel>) -> Seq<TrackModel>
    decreases s.len(),
{
    if s.len() == 0 {
        Seq::empty()
    } else {
        album_tracks(s.drop_last()) + s.last().tracks
    }
}

/// All artist credits of a track collection, track by track, in order.
pub open spec fn track_artists(s: Seq<TrackModel>) -> Seq<ArtistModel>
    decreases s.len(),
{
    if s.len() == 0 {
        Seq::empty()
    } else {
        track_artists(s.drop_last()) + s.last().artists
    }
}

/// Whether some artist in `s` carries the id `id`.
pub open spec fn ids_contain(s: Seq<ArtistModel>, id: Seq<char>) -> bool {
    exists|i: int| 0 <= i < s.len() && s[i].id == id
}

/// One step of first-occurrence-by-id deduplication: an artist whose id
/// was already kept is dropped.
pub open spec fn dedup_id_step(acc: Seq<ArtistModel>, x: ArtistModel) -> Seq<ArtistModel> {
    if ids_contain(acc, x.id) {
        acc
    } else {
        acc.push(x)
    }
}

/// Folds `s` onto `acc`, keeping the first occurrence of every id.
pub open spec fn dedup_id_fold(acc: Seq<ArtistModel>, s: Seq<ArtistModel>) -> Seq<ArtistModel>
    decreases s.len(),
{
    if s.len() == 0 {
        acc
    } else {
        dedup_id_fold(dedup_id_step(acc, s[0]), s.drop_first())
    }
}

/// The artists of `s` with every id kept once, at its first occurrence.
pub open spec fn dedup_by_id(s: Seq<ArtistModel>) -> Seq<ArtistModel> {
    dedup_id_fold(Seq::empty(), s)
}

proof fn lemma_dedup_id_fold_push(acc: Seq<ArtistModel>, s: Seq<ArtistModel>, x: ArtistModel)
    ensures
        dedup_id_fold(acc, s.push(x)) == dedup_id_step(dedup_id_fold(acc, s), x),
    decreases s.len(),
{
    if s.len() == 0 {
        let e: Seq<ArtistModel> = Seq::empty();
        assert(s.push(x)[0] == x);
        assert(s.push(x).drop_first() =~= e);
        assert(dedup_id_fold(acc, s.push(x)) == dedup_id_fold(dedup_id_step(acc, x), e));
        assert(dedup_id_fold(dedup_id_step(acc, x), e) == dedup_id_step(acc, x));
    } else {
        assert(s.push(x)[0] == s[0]);
        assert(s.push(x).drop_first() =~= s.drop_first().push(x));
        assert(dedup_id_fold(acc, s.push(x))
            == dedup_id_fold(dedup_id_step(acc, s[0]), s.drop_first().push(x)));
        lemma_dedup_id_fold_push(dedup_id_step(acc, s[0]), s.drop_first(), x);
        assert(dedup_id_fold(acc, s)
            == dedup_id_fold(dedup_id_step(acc, s[0]), s.drop_first()));
    }
}

proof fn lemma_dedup_id_fold_concat(acc: Seq<ArtistModel>, s: Seq<ArtistModel>, t: Seq<ArtistModel>)
    ensures
        dedup_id_fold(acc, s + t) == dedup_id_fold(dedup_id_fold(acc, s), t),
    decreases t.len(),
{
    if t.len() == 0 {
        assert(s + t =~= s);
    } else {
        assert(s + t.drop_last() =~= (s + t).drop_last());
        assert((s + t).last() == t.last());
        assert(t.drop_last().push(t.last()) =~= t);
        assert((s + t.drop_last()).push(t.last()) =~= s + t);
        lemma_dedup_id_fold_concat(acc, s, t.drop_last());
        lemma_dedup_id_fold_push(acc, s + t.drop_last(), t.last());
        lemma_dedup_id_fold_push(dedup_id_fold(acc, s), t.drop_last(), t.last());
    }
}

/// One step of whole-value deduplication: a credit equal in id and name
/// to one already kept is dropped.
pub open spec fn dedup_value_step(acc: Seq<ArtistModel>, x: ArtistModel) -> Seq<ArtistModel> {
    if acc.contains(x) {
        acc
    } else {
        acc.push(x)
    }
}

/// Folds `s` onto `acc`, keeping the first occurrence of every value.
pub open spec fn dedup_value_fold(acc: Seq<ArtistModel>, s: Seq<ArtistModel>) -> Seq<ArtistModel>
    decreases s.len(),
{
    if s.len() == 0 {
        acc
    } else {
        dedup_value_fold(dedup_value_step(acc, s[0]), s.drop_first())
    }
}

/// The artists of `s` with every distinct (id, name) value kept once, at
/// its first occurrence.
pub open spec fn dedup_by_value(s: Seq<ArtistModel>) -> Seq<ArtistModel> {
    dedup_value_fold(Seq::empty(), s)
}

proof fn lemma_dedup_value_fold_push(acc: Seq<ArtistModel>, s: Seq<ArtistModel>, x: ArtistModel)
    ensures
        dedup_value_fold(acc, s.push(x)) == dedup_value_step(dedup_value_fold(acc, s), x),
    decreases s.len(),
{
    if s.len() == 0 {
        let e: Seq<ArtistModel> = Seq::empty();
        assert(s.push(x)[0] == x);
        assert(s.push(x).drop_first() =~= e);
        assert(dedup_value_fold(acc, s.push(x)) == dedup_value_fold(dedup_value_step(acc, x), e));
        assert(dedup_value_fold(dedup_value_step(acc, x), e) == dedup_value_step(acc, x));
    } else {
        assert(s.push(x)[0] == s[0]);
        assert(s.push(x).drop_first() =~= s.drop_first().push(x));
        assert(dedup_value_fold(acc, s.push(x))
            == dedup_value_fold(dedup_value_step(acc, s[0]), s.drop_first().push(x)));
        lemma_dedup_value_fold_push(dedup_value_step(acc, s[0]), s.drop_first(), x);
        assert(dedup_value_fold(acc, s)
            == dedup_value_fold(dedup_value_step(acc, s[0]), s.drop_first()));
    }
}

proof fn lemma_dedup_value_fold_concat(acc: Seq<ArtistModel>, s: Seq<ArtistModel>, t: Seq<ArtistModel>)
    ensures
        dedup_value_fold(acc, s + t) == dedup_value_fold(dedup_value_fold(acc, s), t),
    decreases t.len(),
{
    if t.len() == 0 {
        assert(s + t =~= s);
    } else {
        assert(s + t.drop_last() =~= (s + t).drop_last());
        assert((s + t).last() == t.last());
        assert(t.drop_last().push(t.last()) =~= t);
        assert((s + t.drop_last()).push(t.last()) =~= s + t);
        lemma_dedup_value_fold_concat(acc, s, t.drop_last());
        lemma_dedup_value_fold_push(acc, s + t.drop_last(), t.last());
        lemma_dedup_value_fold_push(dedup_value_fold(acc, s), t.drop_last(), t.last());
    }
}

/// The views of a sequence of albums.
pub open spec fn album_views(s: Seq<Album>) -> Seq<AlbumModel> {
    s.map_values(|a: Album| a@)
}

/// The views of a sequence of raw tracks.
pub open spec fn track_views(s: Seq<Track>) -> Seq<TrackModel> {
    s.map_values(|t: Track| t@)
}

/// The views of a sequence of artist credits.
pub open spec fn artist_views(s: Seq<Artist>) -> Seq<ArtistModel> {
    s.map_values(|a: Artist| a@)
}

/// The views of a sequence of strings.
pub open spec fn string_views(s: Seq<String>) -> Seq<Seq<char>> {
    s.map_values(|x: String| x@)
}

/// The views of a sequence of normalized albums.
pub open spec fn nalbum_views(s: Seq<NormalizedAlbum>) -> Seq<NormAlbumModel> {
    s.map_values(|a: NormalizedAlbum| a@)
}

/// The views of a sequence of normalized tracks.
pub open spec fn ntrack_views(s: Seq<NormalizedTrack>) -> Seq<NormTrackModel> {
    s.map_values(|t: NormalizedTrack| t@)
}

/// The views of a sequence of normalized artists.
pub open spec fn nartist_views(s: Seq<NormalizedArtist>) -> Seq<ArtistModel> {
    s.map_values(|a: NormalizedArtist| a@)
}

/// Normalization of a whole track sequence.
pub open spec fn norm_tracks_of(s: Seq<TrackModel>) -> Seq<NormTrackModel> {
    s.map_values(|t: TrackModel| norm_of_track(t))
}

/// Normalization of a whole album sequence.
pub open spec fn norm_albums_of(s: Seq<AlbumModel>) -> Seq<NormAlbumModel> {
    s.map_values(|a: AlbumModel| norm_of_album(a))
}

/// The id of every artist in `s`, in order.
pub open spec fn artist_ids_of(s: Seq<ArtistModel>) -> Seq<Seq<char>> {
    s.map_values(|a: ArtistModel| a.id)
}

/// The tracks of `s` that credit more than one artist, in order.
pub open spec fn multi_credit(s: Seq<TrackModel>) -> Seq<TrackModel>
    decreases s.len(),
{
    if s.len() == 0 {
        Seq::empty()
    } else if s.last().artists.len() > 1 {
        multi_credit(s.drop_last()).push(s.last())
    } else {
        multi_credit(s.drop_last())
    }
}

/// Copies an optional preview link.
fn clone_opt_str(o: &Option<String>) -> (r: Option<String>)
    ensures
        opt_str_view(r) == opt_str_view(*o),
{
    match o {
        Some(s) => Some(s.clone()),
        None => None,
    }
}

/// Flattens one raw track to its normalized row.
fn normalize_track(t: &Track) -> (nt: NormalizedTrack)
    ensures
        nt@ == norm_of_track(t@),
{
    let mut ids: Vec<String> = Vec::new();
    let mut k: usize = 0;
    while k < t.artists.len()
        invariant
            k <= t.artists@.len(),
            ids@.len() == k,
            forall|j: int| 0 <= j < k ==> (#[trigger] ids@[j])@ == t.artists@[j].id@,
        decreases t.artists@.len() - k,
    {
        ids.push(t.artists[k].id.clone());
        k = k + 1;
    }
    let nt = NormalizedTrack {
        id: t.id.clone(),
        name: t.name.clone(),
        preview_url: clone_opt_str(&t.preview_url),
        artists: ids,
    };
    proof {
        assert(nt@.artist_ids =~= norm_of_track(t@).artist_ids);
        assert(nt@ =~= norm_of_track(t@));
    }
    nt
}

/// Whether `acc` already holds a row with the artist id `id`.
fn contains_artist_id(acc: &Vec<NormalizedArtist>, id: &String) -> (found: bool)
    ensures
        found == ids_contain(nartist_views(acc@), id@),
{
    let mut q: usize = 0;
    let mut found = false;
    while q < acc.len()
        invariant
            q <= acc@.len(),
            found == (exists|p: int| 0 <= p < q && (#[trigger] acc@[p]).id@ == id@),
        decreases acc@.len() - q,
    {
        if acc[q].id == *id {
            found = true;
            assert((acc@[q as int]).id@ == id@);
        }
        q = q + 1;
    }
    proof {
        if found {
            let p = choose|p: int| 0 <= p < acc@.len() && (#[trigger] acc@[p]).id@ == id@;
            assert(nartist_views(acc@)[p].id == id@);
            assert(ids_contain(nartist_views(acc@), id@));
        } else {
            assert forall|i: int| 0 <= i < nartist_views(acc@).len()
                implies (#[trigger] nartist_views(acc@)[i]).id != id@ by {
                assert(nartist_views(acc@)[i] == acc@[i]@);
            }
            assert(!ids_contain(nartist_views(acc@), id@));
        }
    }
    found
}

/// Appends to `acc` every artist of `artists` whose id is not yet there,
/// keeping first occurrences.
fn push_unique_artists(acc: &mut Vec<NormalizedArtist>, artists: &Vec<Artist>)
    ensures
        nartist_views(final(acc)@) == dedup_id_fold(nartist_views(old(acc)@), artist_views(artists@)),
{
    let mut k: usize = 0;
    while k < artists.len()
        invariant
            k <= artists@.len(),
            nartist_views(acc@) == dedup_id_fold(
                nartist_views(old(acc)@),
                artist_views(artists@).take(k as int),
            ),
        decreases artists@.len() - k,
    {
        let a = &artists[k];
        let ghost pre = nartist_views(acc@);
        let found = contains_artist_id(acc, &a.id);
        if !found {
            acc.push(NormalizedArtist { id: a.id.clone(), name: a.name.clone() });
        }
        proof {
            assert(nartist_views(acc@) =~= dedup_id_step(pre, a@));
            lemma_dedup_id_fold_push(
                nartist_views(old(acc)@),
                artist_views(artists@).take(k as int),
                a@,
            );
            assert(artist_views(artists@).take(k + 1) =~= artist_views(artists@).take(
                k as int,
            ).push(a@));
        }
        k = k + 1;
    }
    proof {
        assert(artist_views(artists@).take(artists@.len() as int) =~= artist_views(artists@));
    }
}

/// Flattens an album collection into normalized album, track and artist
/// rows.
///
/// The albums come back one row per album, in order, each carrying its
/// track-id list; the tracks come back one row per track, album by
/// album, each carrying its artist-id credits; the artists come back one
/// row per distinct credited artist id, at its first occurrence.
pub fn normalize_albums(albums: Vec<Album>) -> (r: (
    Vec<NormalizedAlbum>,
    Vec<NormalizedTrack>,
    Vec<NormalizedArtist>,
))
    ensures
        nalbum_views(r.0@) == norm_albums_of(album_views(albums@)),
        ntrack_views(r.1@) == norm_tracks_of(album_tracks(album_views(albums@))),
        nartist_views(r.2@) == dedup_by_id(track_artists(album_tracks(album_views(albums@)))),
{
    let ghost av = album_views(albums@);
    let mut normalized_albums: Vec<NormalizedAlbum> = Vec::new();
    let mut normalized_tracks: Vec<NormalizedTrack> = Vec::new();
    let mut normalized_artists: Vec<NormalizedArtist> = Vec::new();
    let mut i: usize = 0;
    while i < albums.len()
        invariant
            i <= av.len(),
            av == album_views(albums@),
            nalbum_views(normalized_albums@) == norm_albums_of(av.take(i as int)),
            ntrack_views(normalized_tracks@) == norm_tracks_of(album_tracks(av.take(i as int))),
            nartist_views(normalized_artists@) == dedup_by_id(
                track_artists(album_tracks(av.take(i as int))),
            ),
        decreases av.len() - i,
    {
        let album = &albums[i];
        let ghost base = album_tracks(av.take(i as int));
        let mut album_track_ids: Vec<String> = Vec::new();
        let mut j: usize = 0;
        while j < album.tracks.len()
            invariant
                j <= album.tracks@.len(),
                0 <= i < av.len(),
                av == album_views(albums@),
                album == albums@[i as int],
                base == album_tracks(av.take(i as int)),
                album_track_ids@.len() == j,
                forall|q: int|
                    0 <= q < j ==> (#[trigger] album_track_ids@[q])@ == album.tracks@[q].id@,
                ntrack_views(normalized_tracks@) == norm_tracks_of(
                    base + av[i as int].tracks.take(j as int),
                ),
                nartist_views(normalized_artists@) == dedup_by_id(
                    track_artists(base + av[i as int].tracks.take(j as int)),
                ),
            decreases album.tracks@.len() - j,
        {
            let t = &album.tracks[j];
            proof {
                assert(av[i as int].tracks[j as int] == t@);
            }
            let nt = normalize_track(t);
            album_track_ids.push(nt.id.clone());
            proof {
                assert(nt.id@ == t.id@);
            }
            let ghost tprev = normalized_tracks@;
            normalized_tracks.push(nt);
            let ghost mid = base + av[i as int].tracks.take(j as int);
            proof {
                assert(base + av[i as int].tracks.take(j + 1) =~= mid.push(t@));
                assert(mid.push(t@).drop_last() =~= mid);
                assert(mid.push(t@).last() == t@);
                assert(track_artists(mid.push(t@)) == track_artists(mid.push(t@).drop_last())
                    + mid.push(t@).last().artists);
                assert(track_artists(mid.push(t@)) == track_artists(mid) + t@.artists);
            }
            push_unique_artists(&mut normalized_artists, &t.artists);
            proof {
                assert(ntrack_views(tprev).len() == mid.len());
                assert forall|k: int| 0 <= k < tprev.len() + 1
                    implies ntrack_views(tprev.push(nt))[k] == norm_tracks_of(mid.push(t@))[k] by {
                    if k < tprev.len() {
                        assert(ntrack_views(tprev)[k] == norm_tracks_of(mid)[k]);
                    } else {
                        assert(ntrack_views(tprev.push(nt))[k] == nt@);
                        assert(norm_tracks_of(mid.push(t@))[k] == norm_of_track(t@));
                    }
                }
                assert(ntrack_views(normalized_tracks@) =~= norm_tracks_of(mid.push(t@)));
                assert(artist_views(t.artists@) =~= t@.artists);
                lemma_dedup_id_fold_concat(Seq::empty(), track_artists(mid), t@.artists);
            }
            j = j + 1;
        }
        let na = NormalizedAlbum {
            id: album.id.clone(),
            name: album.name.clone(),
            release_date: album.release_date.clone(),
            album_type: album.album_type.clone(),
            tracks: album_track_ids,
        };
        proof {
            assert(na@ =~= norm_of_album(av[i as int]));
            assert(av[i as int].tracks.take(av[i as int].tracks.len() as int) =~= av[
                i as int
            ].tracks);
            assert(av.take(i + 1).drop_last() =~= av.take(i as int));
            assert(av.take(i + 1).last() == av[i as int]);
            assert(album_tracks(av.take(i + 1)) == album_tracks(av.take(i + 1).drop_last())
                + av.take(i + 1).last().tracks);
            assert(album_tracks(av.take(i + 1)) == album_tracks(av.take(i as int)) + av[
                i as int
            ].tracks);
        }
        let ghost aprev = normalized_albums@;
        normalized_albums.push(na);
        proof {
            assert(nalbum_views(aprev).len() == i as int);
            assert forall|k: int| 0 <= k < aprev.len() + 1
                implies nalbum_views(aprev.push(na))[k] == norm_albums_of(av.take(i + 1))[k] by {
                if k < aprev.len() {
                    assert(nalbum_views(aprev)[k] == norm_albums_of(av.take(i as int))[k]);
                    assert(norm_albums_of(av.take(i + 1))[k] == norm_of_album(av.take(i + 1)[k]));
                } else {
                    assert(nalbum_views(aprev.push(na))[k] == na@);
                    assert(norm_albums_of(av.take(i + 1))[k] == norm_of_album(av[i as int]));
                }
            }
            assert(nalbum_views(normalized_albums@) =~= norm_albums_of(av.take(i + 1)));
        }
        i = i + 1;
    }
    proof {
        assert(av.take(av.len() as int) =~= av);
    }
    (normalized_albums, normalized_tracks, normalized_artists)
}

/// Whether `acc` already holds a credit equal to `a` in id and name.
fn contains_artist_value(acc: &Vec<Artist>, a: &Artist) -> (found: bool)
    ensures
        found == artist_views(acc@).contains(a@),
{
    let mut q: usize = 0;
    let mut found = false;
    while q < acc.len()
        invariant
            q <= acc@.len(),
            found == (exists|p: int|
                0 <= p < q && (#[trigger] acc@[p]).id@ == a.id@ && acc@[p].name@ == a.name@),
        decreases acc@.len() - q,
    {
        if acc[q].id == a.id && acc[q].name == a.name {
            found = true;
            assert((acc@[q as int]).id@ == a.id@ && acc@[q as int].name@ == a.name@);
        }
        q = q + 1;
    }
    proof {
        if found {
            let p = choose|p: int|
                0 <= p < acc@.len() && (#[trigger] acc@[p]).id@ == a.id@
                    && acc@[p].name@ == a.name@;
            assert(artist_views(acc@)[p] == a@);
            assert(artist_views(acc@).contains(a@));
        } else {
            assert forall|i: int| 0 <= i < artist_views(acc@).len()
                implies (#[trigger] artist_views(acc@)[i]) != a@ by {
                assert(artist_views(acc@)[i] == acc@[i]@);
            }
            assert(!artist_views(acc@).contains(a@));
        }
    }
    found
}

/// Appends to `acc` every credit of `artists` not yet present as a
/// whole (id, name) value, keeping first occurrences.
fn push_unique_values(acc: &mut Vec<Artist>, artists: &Vec<Artist>)
    ensures
        artist_views(final(acc)@) == dedup_value_fold(
            artist_views(old(acc)@),
            artist_views(artists@),
        ),
{
    let mut k: usize = 0;
    while k < artists.len()
        invariant
            k <= artists@.len(),
            artist_views(acc@) == dedup_value_fold(
                artist_views(old(acc)@),
                artist_views(artists@).take(k as int),
            ),
        decreases artists@.len() - k,
    {
        let a = &artists[k];
        let ghost pre = artist_views(acc@);
        let found = contains_artist_value(acc, a);
        if !found {
            acc.push(Artist { id: a.id.clone(), name: a.name.clone() });
        }
        proof {
            assert(artist_views(acc@) =~= dedup_value_step(pre, a@));
            lemma_dedup_value_fold_push(
                artist_views(old(acc)@),
                artist_views(artists@).take(k as int),
                a@,
            );
            assert(artist_views(artists@).take(k + 1) =~= artist_views(artists@).take(
                k as int,
            ).push(a@));
        }
        k = k + 1;
    }
    proof {
        assert(artist_views(artists@).take(artists@.len() as int) =~= artist_views(artists@));
    }
}

/// The distinct artist credits of a track collection, track by track,
/// each (id, name) value kept once at its first occurrence.
pub fn unique_artists(tracks: &Vec<Track>) -> (us: Vec<Artist>)
    ensures
        artist_views(us@) == dedup_by_value(track_artists(track_views(tracks@))),
{
    let ghost tv = track_views(tracks@);
    let mut us: Vec<Artist> = Vec::new();
    let mut i: usize = 0;
    while i < tracks.len()
        invariant
            i <= tv.len(),
            tv == track_views(tracks@),
            artist_views(us@) == dedup_by_value(track_artists(tv.take(i as int))),
        decreases tv.len() - i,
    {
        let t = &tracks[i];
        proof {
            assert(tv[i as int] == t@);
        }
        let ghost mid = track_artists(tv.take(i as int));
        push_unique_values(&mut us, &t.artists);
        proof {
            assert(tv.take(i + 1).drop_last() =~= tv.take(i as int));
            assert(tv.take(i + 1).last() == t@);
            assert(track_artists(tv.take(i + 1)) == track_artists(tv.take(i + 1).drop_last())
                + tv.take(i + 1).last().artists);
            assert(track_artists(tv.take(i + 1)) == mid + t@.artists);
            assert(artist_views(t.artists@) =~= t@.artists);
            lemma_dedup_value_fold_concat(Seq::empty(), mid, t@.artists);
        }
        i = i + 1;
    }
    proof {
        assert(tv.take(tv.len() as int) =~= tv);
    }
    us
}

/// Normalizes the tracks that credit more than one artist, dropping the
/// single-credit rest.
pub fn normalize_multi_credit_tracks(tracks: &Vec<Track>) -> (nts: Vec<NormalizedTrack>)
    ensures
        ntrack_views(nts@) == norm_tracks_of(multi_credit(track_views(tracks@))),
{
    let ghost tv = track_views(tracks@);
    let mut nts: Vec<NormalizedTrack> = Vec::new();
    let mut i: usize = 0;
    while i < tracks.len()
        invariant
            i <= tv.len(),
            tv == track_views(tracks@),
            ntrack_views(nts@) == norm_tracks_of(multi_credit(tv.take(i as int))),
        decreases tv.len() - i,
    {
        let t = &tracks[i];
        proof {
            assert(tv[i as int] == t@);
            assert(tv.take(i + 1).drop_last() =~= tv.take(i as int));
            assert(tv.take(i + 1).last() == t@);
            assert(t.artists@.len() == t@.artists.len());
        }
        if t.artists.len() > 1 {
            let nt = normalize_track(t);
            let ghost prev = nts@;
            nts.push(nt);
            proof {
                assert(multi_credit(tv.take(i + 1)) == multi_credit(tv.take(i as int)).push(t@));
                assert(ntrack_views(prev).len() == multi_credit(tv.take(i as int)).len());
                assert forall|k: int| 0 <= k < prev.len() + 1
                    implies ntrack_views(prev.push(nt))[k] == norm_tracks_of(
                        multi_credit(tv.take(i + 1)),
                    )[k] by {
                    if k < prev.len() {
                        assert(ntrack_views(prev)[k] == norm_tracks_of(
                            multi_credit(tv.take(i as int)),
                        )[k]);
                    } else {
                        assert(ntrack_views(prev.push(nt))[k] == nt@);
                        assert(norm_tracks_of(multi_credit(tv.take(i + 1)))[k]
                            == norm_of_track(t@));
                    }
                }
                assert(ntrack_views(nts@) =~= norm_tracks_of(multi_credit(tv.take(i + 1))));
            }
        } else {
            proof {
                assert(multi_credit(tv.take(i + 1)) == multi_credit(tv.take(i as int)));
            }
        }
        i = i + 1;
    }
    proof {
        assert(tv.take(tv.len() as int) =~= tv);
    }
    nts
}

/// The id of every credit in `artists`, in order.
pub fn artist_id_list(artists: &Vec<Artist>) -> (ids: Vec<String>)
    ensures
        string_views(ids@) == artist_ids_of(artist_views(artists@)),
{
    let mut ids: Vec<String> = Vec::new();
    let mut k: usize = 0;
    while k < artists.len()
        invariant
            k <= artists@.len(),
            ids@.len() == k,
            forall|j: int| 0 <= j < k ==> (#[trigger] ids@[j])@ == artists@[j].id@,
        decreases artists@.len() - k,
    {
        ids.push(artists[k].id.clone());
        k = k + 1;
    }
    proof {
        assert(string_views(ids@) =~= artist_ids_of(artist_views(artists@)));
    }
    ids
}

} // verus!
