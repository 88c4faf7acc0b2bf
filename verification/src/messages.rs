//! What the user is told about errors.

use crate::cli::ConfigError;
use crate::file_select::SelectError;
use crate::numbers::{decimal, decimal_text};
use crate::size::QuantityError;
use crate::stream::ranges::RangeError;
use crate::text::joined;
use crate::torrent::layout::LayoutError;
use crate::torrent::quota::QuotaError;
use vstd::prelude::*;

verus! {

impl RangeError {
    /// What is wrong with the value of a range header.
    pub open spec fn message_text(self) -> Seq<char> {
        match self {
            RangeError::EmptyFile => "range is unsatisfiable for an empty file"@,
            RangeError::NotBytes => "only byte ranges are supported"@,
            RangeError::Multiple => "multiple byte ranges are not supported"@,
            RangeError::Malformed => "malformed byte range"@,
            RangeError::InvalidSuffix => "invalid suffix byte range"@,
            RangeError::ZeroSuffix => "suffix byte range cannot be zero"@,
            RangeError::InvalidStart => "invalid range start"@,
            RangeError::StartOutside => "range start is outside file"@,
            RangeError::InvalidEnd => "invalid range end"@,
            RangeError::EndBeforeStart => "range end precedes range start"@,
        }
    }

    /// What is wrong with the value of a range header.
    pub fn message(self) -> (res: &'static str)
        ensures
            res@ == self.message_text(),
    {
        match self {
            RangeError::EmptyFile => "range is unsatisfiable for an empty file",
            RangeError::NotBytes => "only byte ranges are supported",
            RangeError::Multiple => "multiple byte ranges are not supported",
            RangeError::Malformed => "malformed byte range",
            RangeError::InvalidSuffix => "invalid suffix byte range",
            RangeError::ZeroSuffix => "suffix byte range cannot be zero",
            RangeError::InvalidStart => "invalid range start",
            RangeError::StartOutside => "range start is outside file",
            RangeError::InvalidEnd => "invalid range end",
            RangeError::EndBeforeStart => "range end precedes range start",
        }
    }
}

impl LayoutError {
    /// What cannot be mapped, given the path of the file.
    pub open spec fn message_text(self, path: Seq<char>) -> Seq<char> {
        match self {
            LayoutError::UnknownFile { file_id } => "torrent file id "@ + decimal(file_id as nat)
                + " is not present"@,
            LayoutError::FileRangeOverflow => "file range overflows u64"@,
            LayoutError::BeyondFile { start, end, length } => "file range "@ + decimal(start as nat)
                + ".."@ + decimal(end as nat) + " exceeds "@ + decimal(length as nat) + " (file "@
                + path + ")"@,
            LayoutError::TorrentRangeOverflow => "torrent range overflows u64"@,
            LayoutError::BeyondTorrent => "torrent range exceeds torrent length"@,
            LayoutError::ZeroPieceLength => "torrent piece length is zero"@,
            LayoutError::PieceIndexTooLarge => "piece index is too large"@,
            LayoutError::PieceOffsetOverflow => "piece offset overflows u64"@,
            LayoutError::PieceOutside { piece } => "piece index "@ + decimal(piece as nat)
                + " is outside torrent"@,
        }
    }

    /// What cannot be mapped, given the path of the file.
    pub fn message(self, path: &str) -> (res: String)
        ensures
            res@ == self.message_text(path@),
    {
        match self {
            LayoutError::UnknownFile { file_id } => {
                let mut res = "torrent file id ".to_owned();
                res.append(decimal_text(file_id as u64).as_str());
                res.append(" is not present");
                res
            },
            LayoutError::FileRangeOverflow => "file range overflows u64".to_owned(),
            LayoutError::BeyondFile { start, end, length } => {
                let mut res = "file range ".to_owned();
                res.append(decimal_text(start).as_str());
                res.append("..");
                res.append(decimal_text(end).as_str());
                res.append(" exceeds ");
                res.append(decimal_text(length).as_str());
                res.append(" (file ");
                res.append(path);
                res.append(")");
                res
            },
            LayoutError::TorrentRangeOverflow => "torrent range overflows u64".to_owned(),
            LayoutError::BeyondTorrent => "torrent range exceeds torrent length".to_owned(),
            LayoutError::ZeroPieceLength => "torrent piece length is zero".to_owned(),
            LayoutError::PieceIndexTooLarge => "piece index is too large".to_owned(),
            LayoutError::PieceOffsetOverflow => "piece offset overflows u64".to_owned(),
            LayoutError::PieceOutside { piece } => {
                let mut res = "piece index ".to_owned();
                res.append(decimal_text(piece as u64).as_str());
                res.append(" is outside torrent");
                res
            },
        }
    }
}

impl QuotaError {
    /// Why a write is refused.
    pub open spec fn message_text(self) -> Seq<char> {
        match self {
            QuotaError::UnknownFile => "quota storage received an invalid file id"@,
            QuotaError::OffsetOverflow => "quota storage write offset overflow"@,
            QuotaError::BeyondFile => "quota storage write exceeds torrent file length"@,
            QuotaError::GlobalOffsetOverflow => "quota storage global offset overflow"@,
            QuotaError::GlobalRangeOverflow => "quota storage global range overflow"@,
            QuotaError::TooManyPieces => "torrent has too many pieces"@,
            QuotaError::LimitExceeded { limit } => "cache limit of "@ + decimal(limit as nat)
                + " bytes would be exceeded by this torrent piece write"@,
        }
    }

    /// Why a write is refused.
    pub fn message(self) -> (res: String)
        ensures
            res@ == self.message_text(),
    {
        match self {
            QuotaError::UnknownFile => "quota storage received an invalid file id".to_owned(),
            QuotaError::OffsetOverflow => "quota storage write offset overflow".to_owned(),
            QuotaError::BeyondFile => "quota storage write exceeds torrent file length".to_owned(),
            QuotaError::GlobalOffsetOverflow => "quota storage global offset overflow".to_owned(),
            QuotaError::GlobalRangeOverflow => "quota storage global range overflow".to_owned(),
            QuotaError::TooManyPieces => "torrent has too many pieces".to_owned(),
            QuotaError::LimitExceeded { limit } => {
                let mut res = "cache limit of ".to_owned();
                res.append(decimal_text(limit).as_str());
                res.append(" bytes would be exceeded by this torrent piece write");
                res
            },
        }
    }
}

impl SelectError {
    /// Why no file is chosen, given what was asked for.
    pub open spec fn message_text(self, selector: Seq<char>) -> Seq<char> {
        match self {
            SelectError::NoPlayableFiles => "torrent contains no playable media files"@,
            SelectError::IndexOutside { index, count } => "file index "@ + decimal(index as nat)
                + " is outside 1..="@ + decimal(count as nat),
            SelectError::NotFound => "playable file not found: "@ + selector,
            SelectError::NotANumber => "please select a numbered file"@,
        }
    }

    /// Why no file is chosen, given what was asked for.
    pub fn message(self, selector: &str) -> (res: String)
        ensures
            res@ == self.message_text(selector@),
    {
        match self {
            SelectError::NoPlayableFiles => "torrent contains no playable media files".to_owned(),
            SelectError::IndexOutside { index, count } => {
                let mut res = "file index ".to_owned();
                res.append(decimal_text(index as u64).as_str());
                res.append(" is outside 1..=");
                res.append(decimal_text(count as u64).as_str());
                res
            },
            SelectError::NotFound => joined("playable file not found: ", selector),
            SelectError::NotANumber => "please select a numbered file".to_owned(),
        }
    }
}

/// What a quantity measures.
#[derive(Clone, Copy, Debug, PartialEq, Eq, Structural)]
pub enum QuantityKind {
    Size,
    Duration,
}

impl QuantityKind {
    /// What the user is told that a quantity measures.
    pub open spec fn name_text(self) -> Seq<char> {
        match self {
            QuantityKind::Size => "size"@,
            QuantityKind::Duration => "duration"@,
        }
    }

    /// What the user is told that a quantity measures.
    pub fn name(self) -> (res: &'static str)
        ensures
            res@ == self.name_text(),
    {
        match self {
            QuantityKind::Size => "size",
            QuantityKind::Duration => "duration",
        }
    }
}

impl QuantityError {
    /// What is wrong with a quantity, given how the input and the unknown suffix are shown.
    pub open spec fn message_text(
        self,
        kind: QuantityKind,
        input: Seq<char>,
        suffix: Seq<char>,
    ) -> Seq<char> {
        match self {
            QuantityError::Empty => kind.name_text() + " cannot be empty"@,
            QuantityError::InvalidNumber => "invalid "@ + kind.name_text() + " number in "@ + input,
            QuantityError::NotFinite => kind.name_text() + " must be a finite non-negative number: "@
                + input,
            QuantityError::UnknownSuffix(_) => "unknown "@ + kind.name_text() + " suffix "@ + suffix
                + " in "@ + input,
            QuantityError::TooLarge => kind.name_text() + " is too large: "@ + input,
        }
    }

    /// What is wrong with a quantity, given how the input and the unknown suffix are shown. The
    /// suffix is left out where another thing is wrong.
    pub fn message(&self, kind: QuantityKind, input: &str, suffix: &str) -> (res: String)
        ensures
            res@ == self.message_text(kind, input@, suffix@),
    {
        match self {
            QuantityError::Empty => joined(kind.name(), " cannot be empty"),
            QuantityError::InvalidNumber => {
                let mut res = joined("invalid ", kind.name());
                res.append(" number in ");
                res.append(input);
                res
            },
            QuantityError::NotFinite => {
                let mut res = joined(kind.name(), " must be a finite non-negative number: ");
                res.append(input);
                res
            },
            QuantityError::UnknownSuffix(_) => {
                let mut res = joined("unknown ", kind.name());
                res.append(" suffix ");
                res.append(suffix);
                res.append(" in ");
                res.append(input);
                res
            },
            QuantityError::TooLarge => {
                let mut res = joined(kind.name(), " is too large: ");
                res.append(input);
                res
            },
        }
    }
}

impl ConfigError {
    /// Why a command line is refused, without what is wrong with the value of an option.
    pub open spec fn message_text(self) -> Seq<char> {
        match self {
            ConfigError::InvalidMagnet(_) => "invalid magnet URI"@,
            ConfigError::MissingTopic => "magnet URI must contain an xt parameter"@,
            ConfigError::NotAFile(path) => "torrent file does not exist or is not a regular file: "@
                + path@,
            ConfigError::NotATorrent(path) => "source must be a magnet URI or a .torrent file: "@
                + path@,
            ConfigError::OutputWithoutKeep => "--output requires --keep"@,
            ConfigError::StartupBuffer(_) => "invalid --startup-buffer"@,
            ConfigError::CacheLimit(_) => "invalid --cache-limit"@,
            ConfigError::MetadataTimeout(_) => "invalid --metadata-timeout"@,
            ConfigError::StallTimeout(_) => "invalid --stall-timeout"@,
        }
    }

    /// Why a command line is refused, without what is wrong with the value of an option.
    pub fn message(&self) -> (res: String)
        ensures
            res@ == self.message_text(),
    {
        match self {
            ConfigError::InvalidMagnet(_) => "invalid magnet URI".to_owned(),
            ConfigError::MissingTopic => "magnet URI must contain an xt parameter".to_owned(),
            ConfigError::NotAFile(path) => joined(
                "torrent file does not exist or is not a regular file: ",
                path.as_str(),
            ),
            ConfigError::NotATorrent(path) => joined(
                "source must be a magnet URI or a .torrent file: ",
                path.as_str(),
            ),
            ConfigError::OutputWithoutKeep => "--output requires --keep".to_owned(),
            ConfigError::StartupBuffer(_) => "invalid --startup-buffer".to_owned(),
            ConfigError::CacheLimit(_) => "invalid --cache-limit".to_owned(),
            ConfigError::MetadataTimeout(_) => "invalid --metadata-timeout".to_owned(),
            ConfigError::StallTimeout(_) => "invalid --stall-timeout".to_owned(),
        }
    }
}

} // verus!
