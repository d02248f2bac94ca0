//! The playback state, what the display is sent about it, and the decision of
//! the polling loop on each new state.

use vstd::prelude::*;
use vstd::string::*;
use vstd::utf8::*;
use crate::display::{
    brutal_cut, convert_polish, cut_len, cut_text, lemma_cut_text_ascii, polish_text, lemma_polish_text_ascii,
};
use crate::strings::join_with;

verus! {

/// An artist of a track.
#[derive(Debug, Default)]
pub struct ArtistSection {
    pub name: String,
}

/// The track that is playing.
#[derive(Debug, Default)]
pub struct ItemSection {
    pub name: String,
    pub artists: Vec<ArtistSection>,
    pub id: String,
}

/// The playback state of the user's player.
#[derive(Debug, Default)]
pub struct PlaybackState {
    pub item: ItemSection,
    pub progress_ms: u128,
    pub is_playing: bool,
}

/// The address of the audio analysis of a track.
pub fn track_analysis_url(track_id: &str) -> (r: String)
    ensures
        r@ == "https://api.spotify.com/v1/audio-analysis/"@ + track_id@,
{
    String::from_str("https://api.spotify.com/v1/audio-analysis/").concat(track_id)
}

/// The names of the artists.
pub open spec fn artist_names(artists: Seq<ArtistSection>) -> Seq<Seq<char>> {
    artists.map_values(|a: ArtistSection| a.name@)
}

/// The artists' names, separated by `", "`.
pub fn artists_line(artists: &Vec<ArtistSection>) -> (r: String)
    ensures
        r@ == join_with(artist_names(artists@), ", "@),
        r@ == join_with(artists@.map_values(|a: ArtistSection| a.name@), ", "@),
{
    let mut r = String::new();
    let n = artists.len();
    let mut i: usize = 0;
    while i < n
        invariant
            n == artists@.len(),
            i <= n,
            r@ == join_with(artist_names(artists@).take(i as int), ", "@),
        decreases n - i,
    {
        let ghost names = artist_names(artists@);
        if i > 0 {
            r.append(", ");
        }
        r.append(artists[i].name.as_str());
        proof {
            let next = names.take(i + 1);
            assert(next.drop_last() =~= names.take(i as int));
            assert(next.last() == artists@[i as int].name@);
            if i == 0 {
                assert(names.take(0) =~= Seq::<Seq<char>>::empty());
                assert(r@ =~= next[0]);
            }
        }
        i = i + 1;
    }
    proof {
        assert(artist_names(artists@).take(n as int) =~= artist_names(artists@));
    }
    r
}

/// Every artist is named, in order.
pub proof fn lemma_artist_names(artists: Seq<ArtistSection>)
    ensures
        artist_names(artists).len() == artists.len(),
        forall|i: int| 0 <= i < artists.len() ==> #[trigger] artist_names(artists)[i] == artists[i].name@,
{
}

/// One more artist adds `", "` and the artist's name to the end of the line;
/// a single artist is just their name.
pub proof fn lemma_artists_line_append(artists: Seq<ArtistSection>, last: ArtistSection)
    ensures
        artists.len() == 0 ==> join_with(artist_names(artists.push(last)), ", "@) == last.name@,
        artists.len() > 0 ==> join_with(artist_names(artists.push(last)), ", "@)
            == join_with(artist_names(artists), ", "@) + ", "@ + last.name@,
{
    let names = artist_names(artists.push(last));
    assert(names.drop_last() =~= artist_names(artists));
    assert(names.last() == last.name@);
}

/// A text as the display shows it: folded to ASCII and cut to sixteen
/// characters.
pub open spec fn display_text(s: Seq<char>) -> Seq<char> {
    polish_text(s).take(cut_len(s.len()) as int)
}

/// The message that puts a track on the display: `0`, the track's name, `&`,
/// and its artists, each in display form.
pub open spec fn track_line(name: Seq<char>, artists: Seq<ArtistSection>) -> Seq<char> {
    "0"@ + display_text(name) + "&"@ + display_text(join_with(artist_names(artists), ", "@))
}

/// The display form of a text is what cutting its folded form gives: the
/// first sixteen folded characters, or all of them where there are fewer.
pub proof fn lemma_display_text(s: Seq<char>)
    ensures
        display_text(s) == cut_text(polish_text(s)),
        display_text(s) == polish_text(s).take(if s.len() < 16 { s.len() as int } else { 16 }),
{
    lemma_polish_text_ascii(s);
    lemma_cut_text_ascii(polish_text(s));
}

fn display_form(text: String) -> (r: String)
    ensures
        r@ == display_text(text@),
{
    let folded = convert_polish(text);
    proof {
        is_ascii_chars_encode_utf8(folded@);
    }
    brutal_cut(folded)
}

/// The message that puts `item` on the display.
pub fn track_message(item: &ItemSection) -> (r: String)
    ensures
        r@ == track_line(item.name@, item.artists@),
        r@ == "0"@ + cut_text(polish_text(item.name@)) + "&"@ + cut_text(
            polish_text(join_with(item.artists@.map_values(|a: ArtistSection| a.name@), ", "@)),
        ),
{
    proof {
        lemma_display_text(item.name@);
        lemma_display_text(join_with(artist_names(item.artists@), ", "@));
    }
    let title = display_form(item.name.clone());
    let artists = display_form(artists_line(&item.artists));
    String::from_str("0").concat(title.as_str()).concat("&").concat(artists.as_str())
}

/// A track message is ASCII and at most 34 characters long.
pub proof fn lemma_track_line_fits(name: Seq<char>, artists: Seq<ArtistSection>)
    ensures
        is_ascii_chars(track_line(name, artists)),
        track_line(name, artists).len() <= 34,
{
    let joined = join_with(artist_names(artists), ", "@);
    lemma_polish_text_ascii(name);
    lemma_polish_text_ascii(joined);
    reveal_strlit("0");
    reveal_strlit("&");
    let line = track_line(name, artists);
    let t = display_text(name);
    let a = display_text(joined);
    assert(line =~= "0"@ + t + "&"@ + a);
    assert forall|i: int| 0 <= i < line.len() implies '\0' <= #[trigger] line[i] <= '\u{7f}' by {
        if i == 0 {
        } else if i < 1 + t.len() {
            assert(line[i] == t[i - 1]);
            assert(t[i - 1] == polish_text(name)[i - 1]);
        } else if i == 1 + t.len() {
        } else {
            assert(line[i] == a[i - 2 - t.len()]);
            assert(a[i - 2 - t.len()] == polish_text(joined)[i - 2 - t.len()]);
        }
    }
}

/// The message that flashes the display on a beat: `1`, then `1` for a loud
/// section or `0` for a quiet one.
pub fn beat_message(loud: bool) -> (r: String)
    ensures
        r@ == "1"@ + (if loud { "1"@ } else { "0"@ }),
{
    let mode = if loud { "1" } else { "0" };
    String::from_str("1").concat(mode)
}

/// What the polling loop does on a new playback state.
#[derive(Debug, PartialEq, Eq)]
pub enum PlaybackStep {
    /// Nothing is playing: stop flashing.
    Stop,
    /// The same playback goes on: leave the beats as they are.
    Keep,
    /// The playback moved (another track, or a seek): take the new state and
    /// restart the beats; with `new_track`, first fetch the track's analysis
    /// and put its title on the display.
    Restart { new_track: bool },
}

/// The decision on a new playback state, given the one the beats follow and
/// the time stamps of both.
pub fn playback_step(
    current: &PlaybackState,
    current_timestamp: u128,
    latest: &PlaybackState,
    latest_timestamp: u128,
) -> (r: PlaybackStep)
    ensures
        !latest.is_playing ==> r == PlaybackStep::Stop,
        latest.is_playing && latest_timestamp == current_timestamp ==> r == PlaybackStep::Keep,
        latest.is_playing && latest_timestamp != current_timestamp ==> r == (PlaybackStep::Restart {
            new_track: latest.item.id@ != current.item.id@,
        }),
{
    if !latest.is_playing {
        return PlaybackStep::Stop;
    }
    let another_track = latest.item.id != current.item.id;
    if latest_timestamp != current_timestamp {
        PlaybackStep::Restart { new_track: another_track }
    } else {
        PlaybackStep::Keep
    }
}

} // verus!
