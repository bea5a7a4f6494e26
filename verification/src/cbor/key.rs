//! The keys of the wire protocol's maps.

use vstd::prelude::*;
use vstd::utf8::encode_utf8;

use crate::text::same_text;

verus! {

/// A key of one of the protocol's maps. Text that is no such key is `Other`.
#[derive(Clone, Copy, Debug, PartialEq, Eq, Structural)]
pub enum Key {
    Type,
    Ts,
    Sequence,
    Phy,
    Carrier,
    Payload,
    PayloadLen,
    CrcValid,
    Cr,
    IsDownchirp,
    Id,
    PayloadHash,
    RxChannel,
    DecodeLabel,
    Device,
    Sf,
    Bw,
    SyncWord,
    SnrDb,
    NoiseFloorDb,
    PeakDb,
    SnrDbTd,
    ChannelFreq,
    DecodeBw,
    CfoInt,
    CfoFrac,
    SfoHat,
    SampleRate,
    FrequencyCorrected,
    PpmError,
    Diversity,
    LdroCfg,
    Antennas,
    SnrDbMax,
    SnrDbPerAnt,
    PreambleLen,
    Repeat,
    GapMs,
    DryRun,
    Okay,
    Fault,
    Other,
}

/// The text of a key on the wire.
pub open spec fn name_of(k: Key) -> Seq<char> {
    match k {
        Key::Type => "type"@,
        Key::Ts => "ts"@,
        Key::Sequence => "seq"@,
        Key::Phy => "phy"@,
        Key::Carrier => "carrier"@,
        Key::Payload => "payload"@,
        Key::PayloadLen => "payload_len"@,
        Key::CrcValid => "crc_valid"@,
        Key::Cr => "cr"@,
        Key::IsDownchirp => "is_downchirp"@,
        Key::Id => "id"@,
        Key::PayloadHash => "payload_hash"@,
        Key::RxChannel => "rx_channel"@,
        Key::DecodeLabel => "decode_label"@,
        Key::Device => "device"@,
        Key::Sf => "sf"@,
        Key::Bw => "bw"@,
        Key::SyncWord => "sync_word"@,
        Key::SnrDb => "snr_db"@,
        Key::NoiseFloorDb => "noise_floor_db"@,
        Key::PeakDb => "peak_db"@,
        Key::SnrDbTd => "snr_db_td"@,
        Key::ChannelFreq => "channel_freq"@,
        Key::DecodeBw => "decode_bw"@,
        Key::CfoInt => "cfo_int"@,
        Key::CfoFrac => "cfo_frac"@,
        Key::SfoHat => "sfo_hat"@,
        Key::SampleRate => "sample_rate"@,
        Key::FrequencyCorrected => "frequency_corrected"@,
        Key::PpmError => "ppm_error"@,
        Key::Diversity => "diversity"@,
        Key::LdroCfg => "ldro_cfg"@,
        Key::Antennas => "antennas"@,
        Key::SnrDbMax => "snr_db_max"@,
        Key::SnrDbPerAnt => "snr_db_per_ant"@,
        Key::PreambleLen => "preamble_len"@,
        Key::Repeat => "repeat"@,
        Key::GapMs => "gap_ms"@,
        Key::DryRun => "dry_run"@,
        Key::Okay => "ok"@,
        Key::Fault => "error"@,
        Key::Other => ""@,
    }
}

/// The key that a text stands for.
pub open spec fn key_of(s: Seq<char>) -> Key {
    if s == "type"@ {
        Key::Type
    } else if s == "ts"@ {
        Key::Ts
    } else if s == "seq"@ {
        Key::Sequence
    } else if s == "phy"@ {
        Key::Phy
    } else if s == "carrier"@ {
        Key::Carrier
    } else if s == "payload"@ {
        Key::Payload
    } else if s == "payload_len"@ {
        Key::PayloadLen
    } else if s == "crc_valid"@ {
        Key::CrcValid
    } else if s == "cr"@ {
        Key::Cr
    } else if s == "is_downchirp"@ {
        Key::IsDownchirp
    } else if s == "id"@ {
        Key::Id
    } else if s == "payload_hash"@ {
        Key::PayloadHash
    } else if s == "rx_channel"@ {
        Key::RxChannel
    } else if s == "decode_label"@ {
        Key::DecodeLabel
    } else if s == "device"@ {
        Key::Device
    } else if s == "sf"@ {
        Key::Sf
    } else if s == "bw"@ {
        Key::Bw
    } else if s == "sync_word"@ {
        Key::SyncWord
    } else if s == "snr_db"@ {
        Key::SnrDb
    } else if s == "noise_floor_db"@ {
        Key::NoiseFloorDb
    } else if s == "peak_db"@ {
        Key::PeakDb
    } else if s == "snr_db_td"@ {
        Key::SnrDbTd
    } else if s == "channel_freq"@ {
        Key::ChannelFreq
    } else if s == "decode_bw"@ {
        Key::DecodeBw
    } else if s == "cfo_int"@ {
        Key::CfoInt
    } else if s == "cfo_frac"@ {
        Key::CfoFrac
    } else if s == "sfo_hat"@ {
        Key::SfoHat
    } else if s == "sample_rate"@ {
        Key::SampleRate
    } else if s == "frequency_corrected"@ {
        Key::FrequencyCorrected
    } else if s == "ppm_error"@ {
        Key::PpmError
    } else if s == "diversity"@ {
        Key::Diversity
    } else if s == "ldro_cfg"@ {
        Key::LdroCfg
    } else if s == "antennas"@ {
        Key::Antennas
    } else if s == "snr_db_max"@ {
        Key::SnrDbMax
    } else if s == "snr_db_per_ant"@ {
        Key::SnrDbPerAnt
    } else if s == "preamble_len"@ {
        Key::PreambleLen
    } else if s == "repeat"@ {
        Key::Repeat
    } else if s == "gap_ms"@ {
        Key::GapMs
    } else if s == "dry_run"@ {
        Key::DryRun
    } else if s == "ok"@ {
        Key::Okay
    } else if s == "error"@ {
        Key::Fault
    } else {
        Key::Other
    }
}

/// Every key but `Other` is what its own text stands for.
pub proof fn key_of_name(k: Key)
    requires
        k != Key::Other,
    ensures
        key_of(name_of(k)) == k,
{
    reveal_strlit("type");
    reveal_strlit("ts");
    reveal_strlit("seq");
    reveal_strlit("phy");
    reveal_strlit("carrier");
    reveal_strlit("payload");
    reveal_strlit("payload_len");
    reveal_strlit("crc_valid");
    reveal_strlit("cr");
    reveal_strlit("is_downchirp");
    reveal_strlit("id");
    reveal_strlit("payload_hash");
    reveal_strlit("rx_channel");
    reveal_strlit("decode_label");
    reveal_strlit("device");
    reveal_strlit("sf");
    reveal_strlit("bw");
    reveal_strlit("sync_word");
    reveal_strlit("snr_db");
    reveal_strlit("noise_floor_db");
    reveal_strlit("peak_db");
    reveal_strlit("snr_db_td");
    reveal_strlit("channel_freq");
    reveal_strlit("decode_bw");
    reveal_strlit("cfo_int");
    reveal_strlit("cfo_frac");
    reveal_strlit("sfo_hat");
    reveal_strlit("sample_rate");
    reveal_strlit("frequency_corrected");
    reveal_strlit("ppm_error");
    reveal_strlit("diversity");
    reveal_strlit("ldro_cfg");
    reveal_strlit("antennas");
    reveal_strlit("snr_db_max");
    reveal_strlit("snr_db_per_ant");
    reveal_strlit("preamble_len");
    reveal_strlit("repeat");
    reveal_strlit("gap_ms");
    reveal_strlit("dry_run");
    reveal_strlit("ok");
    reveal_strlit("error");
    assert("type"@.len() == 4);
    assert("ts"@.len() == 2 && "ts"@[0] == 't');
    assert("seq"@.len() == 3 && "seq"@[0] == 's');
    assert("phy"@.len() == 3 && "phy"@[0] == 'p');
    assert("carrier"@.len() == 7 && "carrier"@[0] == 'c' && "carrier"@[1] == 'a');
    assert("payload"@.len() == 7 && "payload"@[0] == 'p' && "payload"@[1] == 'a');
    assert("payload_len"@.len() == 11 && "payload_len"@[0] == 'p');
    assert("crc_valid"@.len() == 9 && "crc_valid"@[1] == 'r');
    assert("cr"@.len() == 2 && "cr"@[0] == 'c');
    assert("is_downchirp"@.len() == 12 && "is_downchirp"@[1] == 's');
    assert("id"@.len() == 2 && "id"@[0] == 'i');
    assert("payload_hash"@.len() == 12 && "payload_hash"@[1] == 'a');
    assert("rx_channel"@.len() == 10 && "rx_channel"@[0] == 'r');
    assert("decode_label"@.len() == 12 && "decode_label"@[1] == 'e');
    assert("device"@.len() == 6 && "device"@[0] == 'd');
    assert("sf"@.len() == 2 && "sf"@[0] == 's');
    assert("bw"@.len() == 2 && "bw"@[0] == 'b');
    assert("sync_word"@.len() == 9 && "sync_word"@[1] == 'y');
    assert("snr_db"@.len() == 6 && "snr_db"@[0] == 's');
    assert("noise_floor_db"@.len() == 14 && "noise_floor_db"@[0] == 'n');
    assert("peak_db"@.len() == 7 && "peak_db"@[0] == 'p' && "peak_db"@[1] == 'e');
    assert("snr_db_td"@.len() == 9 && "snr_db_td"@[1] == 'n');
    assert("channel_freq"@.len() == 12 && "channel_freq"@[1] == 'h');
    assert("decode_bw"@.len() == 9 && "decode_bw"@[1] == 'e');
    assert("cfo_int"@.len() == 7 && "cfo_int"@[0] == 'c' && "cfo_int"@[1] == 'f');
    assert("cfo_frac"@.len() == 8 && "cfo_frac"@[0] == 'c');
    assert("sfo_hat"@.len() == 7 && "sfo_hat"@[0] == 's' && "sfo_hat"@[1] == 'f');
    assert("sample_rate"@.len() == 11 && "sample_rate"@[0] == 's');
    assert("frequency_corrected"@.len() == 19);
    assert("ppm_error"@.len() == 9 && "ppm_error"@[1] == 'p');
    assert("diversity"@.len() == 9 && "diversity"@[1] == 'i');
    assert("ldro_cfg"@.len() == 8 && "ldro_cfg"@[0] == 'l');
    assert("antennas"@.len() == 8 && "antennas"@[0] == 'a');
    assert("snr_db_max"@.len() == 10 && "snr_db_max"@[0] == 's');
    assert("snr_db_per_ant"@.len() == 14 && "snr_db_per_ant"@[0] == 's');
    assert("preamble_len"@.len() == 12 && "preamble_len"@[1] == 'r');
    assert("repeat"@.len() == 6 && "repeat"@[0] == 'r');
    assert("gap_ms"@.len() == 6 && "gap_ms"@[0] == 'g');
    assert("dry_run"@.len() == 7 && "dry_run"@[0] == 'd' && "dry_run"@[1] == 'r');
    assert("ok"@.len() == 2 && "ok"@[0] == 'o');
    assert("error"@.len() == 5);
}

/// UTF-8 takes at most four bytes for a character.
pub proof fn encoded_len(s: Seq<char>)
    ensures
        encode_utf8(s).len() <= 4 * s.len(),
    decreases s.len(),
{
    if s.len() > 0 {
        encoded_len(s.drop_first());
    }
}

/// The keys are short.
pub proof fn name_short(k: Key)
    ensures
        encode_utf8(name_of(k)).len() <= 80,
{
    reveal_strlit("type");
    reveal_strlit("ts");
    reveal_strlit("seq");
    reveal_strlit("phy");
    reveal_strlit("carrier");
    reveal_strlit("payload");
    reveal_strlit("payload_len");
    reveal_strlit("crc_valid");
    reveal_strlit("cr");
    reveal_strlit("is_downchirp");
    reveal_strlit("id");
    reveal_strlit("payload_hash");
    reveal_strlit("rx_channel");
    reveal_strlit("decode_label");
    reveal_strlit("device");
    reveal_strlit("sf");
    reveal_strlit("bw");
    reveal_strlit("sync_word");
    reveal_strlit("snr_db");
    reveal_strlit("noise_floor_db");
    reveal_strlit("peak_db");
    reveal_strlit("snr_db_td");
    reveal_strlit("channel_freq");
    reveal_strlit("decode_bw");
    reveal_strlit("cfo_int");
    reveal_strlit("cfo_frac");
    reveal_strlit("sfo_hat");
    reveal_strlit("sample_rate");
    reveal_strlit("frequency_corrected");
    reveal_strlit("ppm_error");
    reveal_strlit("diversity");
    reveal_strlit("ldro_cfg");
    reveal_strlit("antennas");
    reveal_strlit("snr_db_max");
    reveal_strlit("snr_db_per_ant");
    reveal_strlit("preamble_len");
    reveal_strlit("repeat");
    reveal_strlit("gap_ms");
    reveal_strlit("dry_run");
    reveal_strlit("ok");
    reveal_strlit("error");
    reveal_strlit("");
    encoded_len(name_of(k));
}

impl Key {
    /// The text of the key on the wire.
    pub fn name(self) -> (r: &'static str)
        ensures
            r@ == name_of(self),
    {
        match self {
            Key::Type => "type",
            Key::Ts => "ts",
            Key::Sequence => "seq",
            Key::Phy => "phy",
            Key::Carrier => "carrier",
            Key::Payload => "payload",
            Key::PayloadLen => "payload_len",
            Key::CrcValid => "crc_valid",
            Key::Cr => "cr",
            Key::IsDownchirp => "is_downchirp",
            Key::Id => "id",
            Key::PayloadHash => "payload_hash",
            Key::RxChannel => "rx_channel",
            Key::DecodeLabel => "decode_label",
            Key::Device => "device",
            Key::Sf => "sf",
            Key::Bw => "bw",
            Key::SyncWord => "sync_word",
            Key::SnrDb => "snr_db",
            Key::NoiseFloorDb => "noise_floor_db",
            Key::PeakDb => "peak_db",
            Key::SnrDbTd => "snr_db_td",
            Key::ChannelFreq => "channel_freq",
            Key::DecodeBw => "decode_bw",
            Key::CfoInt => "cfo_int",
            Key::CfoFrac => "cfo_frac",
            Key::SfoHat => "sfo_hat",
            Key::SampleRate => "sample_rate",
            Key::FrequencyCorrected => "frequency_corrected",
            Key::PpmError => "ppm_error",
            Key::Diversity => "diversity",
            Key::LdroCfg => "ldro_cfg",
            Key::Antennas => "antennas",
            Key::SnrDbMax => "snr_db_max",
            Key::SnrDbPerAnt => "snr_db_per_ant",
            Key::PreambleLen => "preamble_len",
            Key::Repeat => "repeat",
            Key::GapMs => "gap_ms",
            Key::DryRun => "dry_run",
            Key::Okay => "ok",
            Key::Fault => "error",
            Key::Other => "",
        }
    }

    /// The key that `s` stands for.
    pub fn of(s: &str) -> (r: Key)
        ensures
            r == key_of(s@),
    {
        if same_text(s, "type") {
            Key::Type
        } else if same_text(s, "ts") {
            Key::Ts
        } else if same_text(s, "seq") {
            Key::Sequence
        } else if same_text(s, "phy") {
            Key::Phy
        } else if same_text(s, "carrier") {
            Key::Carrier
        } else if same_text(s, "payload") {
            Key::Payload
        } else if same_text(s, "payload_len") {
            Key::PayloadLen
        } else if same_text(s, "crc_valid") {
            Key::CrcValid
        } else if same_text(s, "cr") {
            Key::Cr
        } else if same_text(s, "is_downchirp") {
            Key::IsDownchirp
        } else if same_text(s, "id") {
            Key::Id
        } else if same_text(s, "payload_hash") {
            Key::PayloadHash
        } else if same_text(s, "rx_channel") {
            Key::RxChannel
        } else if same_text(s, "decode_label") {
            Key::DecodeLabel
        } else if same_text(s, "device") {
            Key::Device
        } else if same_text(s, "sf") {
            Key::Sf
        } else if same_text(s, "bw") {
            Key::Bw
        } else if same_text(s, "sync_word") {
            Key::SyncWord
        } else if same_text(s, "snr_db") {
            Key::SnrDb
        } else if same_text(s, "noise_floor_db") {
            Key::NoiseFloorDb
        } else if same_text(s, "peak_db") {
            Key::PeakDb
        } else if same_text(s, "snr_db_td") {
            Key::SnrDbTd
        } else if same_text(s, "channel_freq") {
            Key::ChannelFreq
        } else if same_text(s, "decode_bw") {
            Key::DecodeBw
        } else if same_text(s, "cfo_int") {
            Key::CfoInt
        } else if same_text(s, "cfo_frac") {
            Key::CfoFrac
        } else if same_text(s, "sfo_hat") {
            Key::SfoHat
        } else if same_text(s, "sample_rate") {
            Key::SampleRate
        } else if same_text(s, "frequency_corrected") {
            Key::FrequencyCorrected
        } else if same_text(s, "ppm_error") {
            Key::PpmError
        } else if same_text(s, "diversity") {
            Key::Diversity
        } else if same_text(s, "ldro_cfg") {
            Key::LdroCfg
        } else if same_text(s, "antennas") {
            Key::Antennas
        } else if same_text(s, "snr_db_max") {
            Key::SnrDbMax
        } else if same_text(s, "snr_db_per_ant") {
            Key::SnrDbPerAnt
        } else if same_text(s, "preamble_len") {
            Key::PreambleLen
        } else if same_text(s, "repeat") {
            Key::Repeat
        } else if same_text(s, "gap_ms") {
            Key::GapMs
        } else if same_text(s, "dry_run") {
            Key::DryRun
        } else if same_text(s, "ok") {
            Key::Okay
        } else if same_text(s, "error") {
            Key::Fault
        } else {
            Key::Other
        }
    }
}

} // verus!
