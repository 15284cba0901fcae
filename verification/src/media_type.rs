use vstd::prelude::*;

verus! {

/// What a media file holds, as far as its streams tell.
#[derive(Debug, Copy, Clone, PartialEq, Eq, Structural)]
pub enum MediaType {
    VideoWithAudio,
    VideoNoAudio,
    Image,
    Audio,
    Unknown,
}

/// The media type after one stream more, the stream given by the short name
/// of its kind. Audio joins video and video joins audio; otherwise a video,
/// audio or image stream decides the type by itself, and any other stream
/// leaves the type as it was.
pub open spec fn with_stream(current: MediaType, nick: Seq<char>) -> MediaType {
    if current == MediaType::VideoNoAudio && nick == "audio"@ {
        MediaType::VideoWithAudio
    } else if current == MediaType::Audio && nick == "video"@ {
        MediaType::VideoWithAudio
    } else if nick == "video"@ {
        MediaType::VideoNoAudio
    } else if nick == "audio"@ {
        MediaType::Audio
    } else if nick == "video(image)"@ {
        MediaType::Image
    } else {
        current
    }
}

/// The media type of a file with the streams `nicks`, read in order: the
/// reading ends as soon as both video and audio were found.
pub open spec fn detected(nicks: Seq<Seq<char>>) -> MediaType
    decreases nicks.len(),
{
    if nicks.len() == 0 {
        MediaType::Unknown
    } else {
        let before = detected(nicks.drop_last());
        if before == MediaType::VideoWithAudio {
            before
        } else {
            with_stream(before, nicks.last())
        }
    }
}

/// The short names of the stream kinds in `streams`, each as its characters.
pub open spec fn nicks_of(streams: Seq<String>) -> Seq<Seq<char>> {
    streams.map_values(|s: String| s@)
}

/// Once both video and audio were found, more streams change nothing.
pub proof fn lemma_detected_settles(nicks: Seq<Seq<char>>, i: int)
    requires
        0 <= i <= nicks.len(),
        detected(nicks.take(i)) == MediaType::VideoWithAudio,
    ensures
        detected(nicks) == MediaType::VideoWithAudio,
    decreases nicks.len() - i,
{
    if i < nicks.len() {
        assert(nicks.take(i + 1).drop_last() =~= nicks.take(i));
        lemma_detected_settles(nicks, i + 1);
    } else {
        assert(nicks.take(i) =~= nicks);
    }
}

/// The media type after one stream more.
pub fn next_media_type(current: MediaType, nick: &str) -> (next: MediaType)
    ensures
        next == with_stream(current, nick@),
{
    let is_image = nick.eq("video(image)");
    let is_video = nick.eq("video");
    let is_audio = nick.eq("audio");
    if current == MediaType::VideoNoAudio && is_audio {
        MediaType::VideoWithAudio
    } else if current == MediaType::Audio && is_video {
        MediaType::VideoWithAudio
    } else if is_video {
        MediaType::VideoNoAudio
    } else if is_audio {
        MediaType::Audio
    } else if is_image {
        MediaType::Image
    } else {
        current
    }
}

/// The media type of a file whose streams have the kinds `streams`.
pub fn info_to_media_type(streams: &Vec<String>) -> (media_type: MediaType)
    ensures
        media_type == detected(nicks_of(streams@)),
{
    let ghost nicks = nicks_of(streams@);
    let mut media_type = MediaType::Unknown;
    let mut i: usize = 0;
    while i < streams.len()
        invariant
            i <= streams.len(),
            nicks == nicks_of(streams@),
            media_type == detected(nicks.take(i as int)),
            media_type != MediaType::VideoWithAudio,
        decreases streams.len() - i,
    {
        proof {
            assert(nicks.take(i + 1).drop_last() =~= nicks.take(i as int));
            assert(nicks.take(i + 1).last() == streams@[i as int]@);
        }
        media_type = next_media_type(media_type, streams[i].as_str());
        i += 1;
        if media_type == MediaType::VideoWithAudio {
            proof {
                lemma_detected_settles(nicks, i as int);
            }
            return media_type;
        }
    }
    assert(nicks.take(i as int) =~= nicks);
    media_type
}

impl MediaType {
    /// Whether an engine can be built for a file of this type: for every
    /// type but the unknown one.
    pub fn is_playable(self) -> (r: bool)
        ensures
            r == (self != MediaType::Unknown),
    {
        self != MediaType::Unknown
    }

    /// The media type of a file whose streams have the kinds `streams`, in
    /// the order in which the file lists them.
    pub fn detect(streams: &Vec<String>) -> (media_type: MediaType)
        ensures
            media_type == detected(nicks_of(streams@)),
    {
        info_to_media_type(streams)
    }
}

} // verus!
