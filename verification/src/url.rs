//! The addresses of playlists and of the parts of a video.
use vstd::prelude::*;
use vstd::slice::slice_subrange;
use vstd::string::StringExecFns;

use crate::text::{to_chars, to_text};

verus! {

/// The largest index between 1 and `from` at which a slash stands in `url`, or else 0.
pub open spec fn slash_before(url: Seq<char>, from: int) -> int
    decreases from,
{
    if from <= 0 {
        0
    } else if url[from] == '/' {
        from
    } else {
        slash_before(url, from - 1)
    }
}

/// `url` up to its last slash, which belongs to it. A slash in the first place does not count:
/// where there is no other, the first character is all that is left.
pub open spec fn base_url(url: Seq<char>) -> Seq<char> {
    url.take(slash_before(url, url.len() - 1) + 1)
}

/// The part of `url` up to its last slash, to which the name of a part can be added.
pub fn get_base_url(url: &str) -> (base: String)
    requires
        url@.len() > 0,
        url.is_ascii(),
    ensures
        base@ == base_url(url@),
{
    let chars = to_chars(url);
    let mut i: usize = chars.len() - 1;
    while i > 0 && chars[i] != '/'
        invariant
            chars@ == url@,
            i < chars@.len(),
            slash_before(url@, url@.len() - 1) == slash_before(url@, i as int),
        decreases i,
    {
        i = i - 1;
    }
    assert(url@.subrange(0, i + 1) == url@.take(i + 1));
    to_text(slice_subrange(&chars, 0, i + 1))
}

/// The part of `url` up to its last slash, where `url` is made of ASCII characters and not empty.
pub fn try_get_base_url(url: &str) -> (base: Option<String>)
    ensures
        match base {
            Some(base) => url@.len() > 0 && url.is_ascii() && base@ == base_url(url@),
            None => !(url@.len() > 0 && url.is_ascii()),
        },
{
    if !url.is_empty() && url.is_ascii() {
        Some(get_base_url(url))
    } else {
        None
    }
}

/// The address of the playlist that lists the qualities of a video.
pub open spec fn playlist_address(
    video_id: Seq<char>,
    token: Seq<char>,
    signature: Seq<char>,
) -> Seq<char> {
    "http://usher.twitch.tv/vod/"@ + video_id + "?nauth="@ + token + "&nauthsig="@ + signature
        + "&allow_source=true&player=twitchweb"@
}

/// The address of the playlist that lists the qualities of the video `video_id`, for the bearer of
/// a playback token.
pub fn playlist_url(video_id: &str, token: &str, signature: &str) -> (url: String)
    ensures
        url@ == playlist_address(video_id@, token@, signature@),
        url@ == "http://usher.twitch.tv/vod/"@ + video_id@ + "?nauth="@ + token@ + "&nauthsig="@
            + signature@ + "&allow_source=true&player=twitchweb"@,
{
    let mut url = String::from("http://usher.twitch.tv/vod/");
    url.append(video_id);
    url.append("?nauth=");
    url.append(token);
    url.append("&nauthsig=");
    url.append(signature);
    url.append("&allow_source=true&player=twitchweb");
    url
}

/// What `slash_before` returns is the last slash, or 0 where there is none behind the first
/// character.
proof fn lemma_slash_before(url: Seq<char>, from: int)
    ensures
        ({
            let i = slash_before(url, from);
            &&& 0 <= i
            &&& i <= from || i == 0
            &&& i > 0 ==> url[i] == '/'
            &&& forall|j: int| i < j <= from ==> #[trigger] url[j] != '/'
        }),
    decreases from,
{
    if from > 0 && url[from] != '/' {
        lemma_slash_before(url, from - 1);
    }
}

/// The base of the address of a file is its folder.
pub proof fn law_base_url_is_the_folder(folder: Seq<char>, file: Seq<char>)
    requires
        folder.len() > 0,
        !file.contains('/'),
    ensures
        base_url(folder + seq!['/'] + file) == folder + seq!['/'],
{
    let url = folder + seq!['/'] + file;
    let n = folder.len() as int;
    lemma_slash_before(url, url.len() - 1);
    let i = slash_before(url, url.len() - 1);
    assert(url[n] == '/');
    if i > n {
        assert(url[i] == file[i - n - 1]);
        assert(file.contains(file[i - n - 1]));
    }
    assert(url.take(n + 1) == folder + seq!['/']);
}

/// The base of an address is the base of itself.
pub proof fn law_base_url_is_its_own_base(url: Seq<char>)
    requires
        url.len() > 0,
    ensures
        base_url(base_url(url)) == base_url(url),
{
    lemma_slash_before(url, url.len() - 1);
    let base = base_url(url);
    lemma_slash_before(base, base.len() - 1);
    if base.len() > 1 {
        assert(base[base.len() - 1] == '/');
    }
    assert(base.take(base.len() as int) == base);
}

/// An address without a slash behind its first character is cut behind that character.
pub proof fn law_address_without_a_folder_keeps_its_first_character(url: Seq<char>)
    requires
        url.len() > 0,
        forall|i: int| 1 <= i < url.len() ==> #[trigger] url[i] != '/',
    ensures
        base_url(url) == url.take(1),
{
    lemma_slash_before(url, url.len() - 1);
    let i = slash_before(url, url.len() - 1);
    if i > 0 {
        assert(url[i] == '/');
    }
}

/// What the base of an address leaves out holds no slash, and what it keeps ends with one, unless
/// it is the first character alone.
pub proof fn law_base_url_ends_at_the_last_slash(url: Seq<char>)
    requires
        url.len() > 0,
    ensures
        1 <= base_url(url).len() <= url.len(),
        base_url(url) == url.take(base_url(url).len() as int),
        base_url(url).len() > 1 ==> base_url(url).last() == '/',
        forall|i: int| base_url(url).len() <= i < url.len() ==> #[trigger] url[i] != '/',
{
    lemma_slash_before(url, url.len() - 1);
}

/// The address of a playlist holds the id, the token and the signature, each in its place and as it
/// is.
pub proof fn law_playlist_address_holds_what_it_is_made_of(
    video_id: Seq<char>,
    token: Seq<char>,
    signature: Seq<char>,
)
    ensures
        playlist_address(video_id, token, signature) == playlist_address(
            video_id,
            seq![],
            seq![],
        ).take(34 + video_id.len() as int) + token + "&nauthsig="@ + signature
            + "&allow_source=true&player=twitchweb"@,
        playlist_address(video_id, seq![], seq![]).subrange(27, 27 + video_id.len() as int)
            == video_id,
        playlist_address(video_id, seq![], seq![]).take(27) == "http://usher.twitch.tv/vod/"@,
{
    reveal_strlit("http://usher.twitch.tv/vod/");
    reveal_strlit("?nauth=");
    reveal_strlit("&nauthsig=");
    reveal_strlit("&allow_source=true&player=twitchweb");
    let start = "http://usher.twitch.tv/vod/"@ + video_id + "?nauth="@;
    let bare = playlist_address(video_id, seq![], seq![]);
    assert(bare.take(34 + video_id.len() as int) =~= start);
    assert(bare.subrange(27, 27 + video_id.len() as int) =~= video_id);
    assert(bare.take(27) =~= "http://usher.twitch.tv/vod/"@);
}

} // verus!
