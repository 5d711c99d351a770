//! How connections are made and failures answered.
use vstd::prelude::*;
use vstd::string::*;

use crate::conn::{Codec, CodecSupport, CompressionChoice};
use crate::retry::{answer, AfterError, RetryConfig};
use crate::text::lowered;

verus! {

/// A failure that another attempt may mend is tried again as long as the budget
/// lasts, and uses one attempt of it; any other is given up and uses none.
pub proof fn mendable_failures_use_the_budget(config: RetryConfig, used: u32)
    requires
        used <= config.max_attempts,
    ensures
        answer(config, used, true).0 is Retry <==> used < config.max_attempts,
        used < config.max_attempts ==> answer(config, used, true).1 == used + 1,
        used == config.max_attempts ==> answer(config, used, true) == (AfterError::Fail, used),
        answer(config, used, false) == (AfterError::Fail, used),
        answer(config, used, true).1 <= config.max_attempts,
{
}

/// Rows are packed as it was asked, with a codec that is built in; one that is
/// not is refused. Unpacked rows may still be answered by packed ones where any
/// codec is built in.
pub proof fn rows_are_packed_as_asked(built: CodecSupport)
    ensures
        CompressionChoice::Lz4.codec(built) is Ok <==> built.lz4,
        built.lz4 ==> CompressionChoice::Lz4.codec(built)->Ok_0 == Some(Codec::Lz4),
        CompressionChoice::Zstd.codec(built) is Ok <==> built.zstd,
        built.zstd ==> CompressionChoice::Zstd.codec(built)->Ok_0 == Some(Codec::Zstd),
        CompressionChoice::Off.codec(built) is Ok,
        CompressionChoice::Off.codec(built)->Ok_0 == Some(Codec::DecodeOnly) <==> built.lz4
            || built.zstd,
        CompressionChoice::Off.codec(built)->Ok_0 is None <==> !built.lz4 && !built.zstd,
{
}

/// A codec is told by its name in any case; no name is none.
pub proof fn codecs_are_told_by_their_name(s: Seq<char>, t: Seq<char>)
    ensures
        lowered(s) == lowered(t) ==> CompressionChoice::named(s) == CompressionChoice::named(t),
        lowered(s) == "lz4"@ ==> CompressionChoice::named(s) == Some(CompressionChoice::Lz4),
        lowered(s) == "zstd"@ ==> CompressionChoice::named(s) == Some(CompressionChoice::Zstd),
        lowered(s) == "none"@ || s.len() == 0 ==> CompressionChoice::named(s) == Some(
            CompressionChoice::Off,
        ),
{
    reveal_strlit("none");
    reveal_strlit("");
    reveal_strlit("lz4");
    reveal_strlit("zstd");
    assert("none"@[0] == 'n' && "zstd"@[0] == 'z');
    if s.len() == 0 {
        assert(lowered(s) == ""@);
    }
}

} // verus!
