use vstd::prelude::*;

verus! {

/// The fixed output sample rate, in hertz.
pub const SAMPLE_RATE: u32 = 48_000;

/// The fixed output channel count: interleaved stereo.
pub const CHANNELS: u8 = 2;

/// A music asset: raw interleaved stereo samples, or a compressed Ogg
/// Vorbis stream still to be decoded before playback begins.
pub enum Music {
    Pcm(Vec<i16>),
    Ogg(&'static [u8]),
}

/// Fatal music loading errors: a stream that does not open or decode, or a
/// source whose channel count or sample rate differs from the fixed output
/// format.
#[derive(PartialEq, Eq, Structural, Clone, Copy, Debug)]
pub enum MusicError {
    InvalidStream,
    UnsupportedFormat { channels: u8, sample_rate: u32 },
}

/// Whether lewton opens the bytes as an Ogg Vorbis stream; a function of
/// the bytes alone.
pub uninterp spec fn ogg_opens(data: Seq<u8>) -> bool;

/// The identification header — channel count and sample rate — of the
/// stream's opening chain, as lewton reads it; a function of the bytes
/// alone, meaningful where the stream opens.
pub uninterp spec fn ogg_header(data: Seq<u8>) -> (u8, u32);

/// The decoded interleaved packets the stream yields, in order, up to its
/// clean end or its first decode failure; a function of the bytes alone.
pub uninterp spec fn ogg_packets(data: Seq<u8>) -> Seq<Seq<i16>>;

/// Whether the stream, after yielding all its packets, ends cleanly rather
/// than with a decode failure; a function of the bytes alone.
pub uninterp spec fn ogg_decodes(data: Seq<u8>) -> bool;

/// All packets joined in order into one interleaved sample buffer.
pub open spec fn concat_packets(packets: Seq<Seq<i16>>) -> Seq<i16>
    decreases packets.len(),
{
    if packets.len() == 0 {
        Seq::empty()
    } else {
        packets[0] + concat_packets(packets.skip(1))
    }
}

/// Extending a joined prefix by one more packet.
proof fn lemma_concat_packets_snoc(p: Seq<Seq<i16>>, i: int)
    requires
        0 <= i < p.len(),
    ensures
        concat_packets(p.take(i + 1)) == concat_packets(p.take(i)) + p[i],
    decreases i,
{
    if i == 0 {
        assert(p.take(1) =~= seq![p[0]]);
        assert(seq![p[0]].skip(1) =~= Seq::<Seq<i16>>::empty());
        assert(p.take(0) =~= Seq::<Seq<i16>>::empty());
        assert(concat_packets(p.take(0)) + p[0] =~= p[0] + concat_packets(seq![p[0]].skip(1)));
    } else {
        lemma_concat_packets_snoc(p.skip(1), i - 1);
        assert(p.skip(1).take(i) =~= p.take(i + 1).skip(1));
        assert(p.skip(1).take(i - 1) =~= p.take(i).skip(1));
        assert(p.skip(1)[i - 1] == p[i]);
        assert(p.take(i + 1)[0] == p[0]);
        assert(p.take(i)[0] == p[0]);
        assert(p[0] + (concat_packets(p.take(i).skip(1)) + p[i]) =~= (p[0] + concat_packets(
            p.take(i).skip(1),
        )) + p[i]);
    }
}

/// Carries lewton's OggStreamReader over an in-memory cursor. Opaque to
/// the verifier — a bound of std::io::Read and Seek cannot be declared to
/// it — and driven only through the trusted wrappers below.
#[verifier::external_body]
struct OggReader {
    inner: lewton::inside_ogg::OggStreamReader<std::io::Cursor<&'static [u8]>>,
}

/// A Vorbis stream being drained: the opaque lewton reader joined with the
/// bytes it was opened on, how many packets have been taken, and whether
/// the stream has already reported its end or a failure — after which it
/// is not read again, since a reader past its first failure may yield
/// packets beyond the named sequence. The wrappers' contracts speak of the
/// stream's named contents through these fields.
struct OggStream {
    reader: OggReader,
    source: Ghost<Seq<u8>>,
    taken: Ghost<int>,
    done: Ghost<bool>,
}

/// Relies on lewton's OggStreamReader::new: it reads the Vorbis headers and
/// succeeds exactly where the bytes open as an Ogg Vorbis stream, which is
/// a function of the bytes alone.
#[verifier::external_body]
fn ogg_open(data: &'static [u8]) -> (r: Result<OggStream, MusicError>)
    ensures
        r is Ok <==> ogg_opens(data@),
        r matches Ok(s) ==> s.source@ == data@ && s.taken@ == 0 && !s.done@,
        r matches Err(e) ==> e == MusicError::InvalidStream,
{
    match lewton::inside_ogg::OggStreamReader::new(std::io::Cursor::new(data)) {
        Ok(inner) => Ok(
            OggStream {
                reader: OggReader { inner },
                source: Ghost(data@),
                taken: Ghost(0),
                done: Ghost(false),
            },
        ),
        Err(_) => Err(MusicError::InvalidStream),
    }
}

/// Relies on the public ident_hdr field of lewton's OggStreamReader: the
/// stream's channel count. Only before any packet is drained: past a chain
/// boundary the reader replaces the header with the next chain's, so the
/// named header is the opening one alone.
#[verifier::external_body]
fn ogg_channels(s: &OggStream) -> (r: u8)
    requires
        s.taken@ == 0,
    ensures
        r == ogg_header(s.source@).0,
{
    s.reader.inner.ident_hdr.audio_channels
}

/// Relies on the public ident_hdr field of lewton's OggStreamReader: the
/// stream's sample rate. Only before any packet is drained, for the same
/// reason as the channel count.
#[verifier::external_body]
fn ogg_sample_rate(s: &OggStream) -> (r: u32)
    requires
        s.taken@ == 0,
    ensures
        r == ogg_header(s.source@).1,
{
    s.reader.inner.ident_hdr.audio_sample_rate
}

/// Relies on lewton's read_dec_packet_itl, on a stream that has not yet
/// reported its end or a failure: while named packets remain it yields the
/// next one in stream order; past them it reports the clean end or the
/// stream's first decode failure, and which of the two is itself a function
/// of the bytes. Nothing is said of a reader read again after that first
/// report, so one never is.
#[verifier::external_body]
fn ogg_next_packet(s: &mut OggStream) -> (r: Result<Option<Vec<i16>>, MusicError>)
    requires
        !old(s).done@,
        old(s).taken@ <= ogg_packets(old(s).source@).len(),
    ensures
        final(s).source@ == old(s).source@,
        match r {
            Ok(p) => match p {
                Some(packet) => old(s).taken@ < ogg_packets(old(s).source@).len() && packet@
                    == ogg_packets(old(s).source@)[old(s).taken@] && final(s).taken@ == old(
                    s,
                ).taken@ + 1 && !final(s).done@,
                None => old(s).taken@ == ogg_packets(old(s).source@).len() && ogg_decodes(
                    old(s).source@,
                ) && final(s).taken@ == old(s).taken@ && final(s).done@,
            },
            Err(e) => old(s).taken@ == ogg_packets(old(s).source@).len() && !ogg_decodes(
                old(s).source@,
            ) && e == MusicError::InvalidStream && final(s).taken@ == old(s).taken@
                && final(s).done@,
        },
{
    match s.reader.inner.read_dec_packet_itl() {
        Ok(p) => Ok(p),
        Err(_) => Err(MusicError::InvalidStream),
    }
}

/// The format rule for sources: only stereo at the fixed sample rate may
/// play; anything else is the fatal load-time mismatch, reported with what
/// the source actually holds.
pub fn validate_format(channels: u8, sample_rate: u32) -> (r: Result<(), MusicError>)
    ensures
        r is Ok <==> (channels == CHANNELS && sample_rate == SAMPLE_RATE),
        r is Err ==> r == Err::<(), MusicError>(
            MusicError::UnsupportedFormat { channels, sample_rate },
        ),
{
    if channels == CHANNELS && sample_rate == SAMPLE_RATE {
        Ok(())
    } else {
        Err(MusicError::UnsupportedFormat { channels, sample_rate })
    }
}

/// Whether an audio output configuration can carry the fixed music format:
/// stereo, the fixed sample rate within its supported range, and 32-bit
/// float samples. The host keeps the first matching configuration; finding
/// none is the fatal device error.
pub fn config_supports(
    channels: u16,
    min_sample_rate: u32,
    max_sample_rate: u32,
    is_f32: bool,
) -> (r: bool)
    ensures
        r <==> (channels == 2 && min_sample_rate <= SAMPLE_RATE <= max_sample_rate && is_f32),
{
    channels == 2 && min_sample_rate <= SAMPLE_RATE && SAMPLE_RATE <= max_sample_rate && is_f32
}

impl Music {
    /// Decode into the fixed-format interleaved sample buffer, up front,
    /// before playback begins. Raw samples pass through unchanged. An Ogg
    /// stream must open and be stereo at the fixed rate — anything else is
    /// the fatal mismatch, reported with what the header holds — and is
    /// then drained packet by packet into one buffer, in stream order.
    #[verifier::loop_isolation(false)]
    pub fn decode(&self) -> (r: Result<Vec<i16>, MusicError>)
        ensures
            self matches Music::Pcm(d) ==> r matches Ok(v) && v@ == d@,
            self matches Music::Ogg(d) ==> match r {
                Ok(v) => {
                    &&& ogg_opens(d@)
                    &&& ogg_header(d@) == (CHANNELS, SAMPLE_RATE)
                    &&& ogg_decodes(d@)
                    &&& v@ == concat_packets(ogg_packets(d@))
                },
                Err(MusicError::InvalidStream) => !ogg_opens(d@) || (ogg_header(d@) == (
                    CHANNELS,
                    SAMPLE_RATE,
                ) && !ogg_decodes(d@)),
                Err(MusicError::UnsupportedFormat { channels, sample_rate }) => {
                    &&& ogg_opens(d@)
                    &&& ogg_header(d@) == (channels, sample_rate)
                    &&& !(channels == CHANNELS && sample_rate == SAMPLE_RATE)
                },
            },
    {
        match self {
            Music::Pcm(data) => {
                let n = data.len();
                let mut out: Vec<i16> = Vec::new();
                let mut i: usize = 0;
                while i < n
                    invariant
                        0 <= i <= n,
                        n == data@.len(),
                        out@ == data@.take(i as int),
                    decreases n - i,
                {
                    out.push(data[i]);
                    proof {
                        assert(data@.take(i as int) + seq![data@[i as int]] =~= data@.take(
                            i as int + 1,
                        ));
                    }
                    i = i + 1;
                }
                proof {
                    assert(data@.take(n as int) =~= data@);
                }
                Ok(out)
            },
            Music::Ogg(data) => {
                let ghost d = data@;
                let mut stream = match ogg_open(data) {
                    Ok(s) => s,
                    Err(e) => {
                        return Err(e);
                    },
                };
                let channels = ogg_channels(&stream);
                let sample_rate = ogg_sample_rate(&stream);
                match validate_format(channels, sample_rate) {
                    Ok(_) => (),
                    Err(e) => {
                        return Err(e);
                    },
                }
                let ghost packets = ogg_packets(d);
                let mut samples: Vec<i16> = Vec::new();
                proof {
                    assert(packets.take(0) =~= Seq::<Seq<i16>>::empty());
                }
                loop
                    invariant
                        stream.source@ == d,
                        0 <= stream.taken@ <= packets.len(),
                        !stream.done@,
                        samples@ == concat_packets(packets.take(stream.taken@)),
                    decreases packets.len() - stream.taken@,
                {
                    let ghost k = stream.taken@;
                    match ogg_next_packet(&mut stream) {
                        Ok(Some(mut packet)) => {
                            proof {
                                lemma_concat_packets_snoc(packets, k);
                            }
                            samples.append(&mut packet);
                        },
                        Ok(None) => {
                            proof {
                                assert(packets.take(k) =~= packets);
                            }
                            return Ok(samples);
                        },
                        Err(e) => {
                            return Err(e);
                        },
                    }
                }
            },
        }
    }
}

} // verus!
