//! What a stream's container tells of it.

use vstd::prelude::*;

use crate::text::same_text;

verus! {

/// What a container tells of a stream, and what a caller asks of the codec.
pub struct CodecParams {
    /// The name of the codec.
    pub codec_id: String,
    /// The number of channels, one where nothing is said.
    pub channels: Option<u16>,
    /// Samples per second and channel.
    pub sample_rate: Option<u32>,
    /// Options, each a key and a value. The first of a key counts.
    pub options: Vec<(String, String)>,
    /// The codec's own part of the container's header.
    pub extradata: Vec<u8>,
    /// The WAV format tag that the container has for the stream.
    pub tag: Option<u16>,
}

/// The parameters over mathematical values.
pub struct ParamsModel {
    pub codec_id: Seq<char>,
    pub channels: Option<u16>,
    pub sample_rate: Option<u32>,
    pub options: Seq<(Seq<char>, Seq<char>)>,
    pub extradata: Seq<u8>,
    pub tag: Option<u16>,
}

impl View for CodecParams {
    type V = ParamsModel;

    open spec fn view(&self) -> ParamsModel {
        ParamsModel {
            codec_id: self.codec_id@,
            channels: self.channels,
            sample_rate: self.sample_rate,
            options: Seq::new(
                self.options@.len(),
                |k: int| (self.options@[k].0@, self.options@[k].1@),
            ),
            extradata: self.extradata@,
            tag: self.tag,
        }
    }
}

/// The value of the first option with that key, from index `from` on.
pub open spec fn value_from(
    options: Seq<(Seq<char>, Seq<char>)>,
    key: Seq<char>,
    from: int,
) -> Option<Seq<char>>
    decreases options.len() - from,
{
    if from < 0 || from >= options.len() {
        None
    } else if options[from].0 == key {
        Some(options[from].1)
    } else {
        value_from(options, key, from + 1)
    }
}

impl ParamsModel {
    /// The value of an option.
    pub open spec fn value(self, key: Seq<char>) -> Option<Seq<char>> {
        value_from(self.options, key, 0)
    }

    /// The number of channels.
    pub open spec fn channel_count(self) -> u16 {
        match self.channels {
            Some(n) => n,
            None => 1,
        }
    }
}

impl CodecParams {
    /// The parameters of a stream of which only the codec is known.
    pub fn audio(codec_id: &str) -> (r: CodecParams)
        ensures
            r@ == (ParamsModel {
                codec_id: codec_id@,
                channels: None,
                sample_rate: None,
                options: Seq::empty(),
                extradata: Seq::empty(),
                tag: None,
            }),
    {
        let r: CodecParams = CodecParams {
            codec_id: codec_id.to_owned(),
            channels: None,
            sample_rate: None,
            options: Vec::new(),
            extradata: Vec::new(),
            tag: None,
        };
        assert(r@.options =~= Seq::empty());
        r
    }

    /// The value of an option.
    pub fn option(&self, key: &str) -> (r: Option<&str>)
        ensures
            match r {
                Some(v) => self@.value(key@) == Some(v@),
                None => self@.value(key@) is None,
            },
    {
        let n: usize = self.options.len();
        let mut i: usize = 0;
        while i < n
            invariant
                i <= n == self.options@.len(),
                self@.value(key@) == value_from(self@.options, key@, i as int),
            decreases n - i,
        {
            let entry: &(String, String) = &self.options[i];
            assert(self@.options[i as int] == (entry.0@, entry.1@));
            if same_text(entry.0.as_str(), key) {
                return Some(entry.1.as_str());
            }
            i = i + 1;
        }
        None
    }

    /// The number of channels.
    pub fn channel_count(&self) -> (r: u16)
        ensures
            r == self@.channel_count(),
    {
        match self.channels {
            Some(n) => n,
            None => 1,
        }
    }
}

} // verus!
