//! Resolution of a capture timestamp from a flat metadata bag.
//!
//! A bag is classified as video when it carries a media create or
//! modify date; otherwise it is a photo.  Each class has a fixed
//! priority list of fields, walked top to bottom; the first field whose
//! value parses wins.  A field whose name marks a filesystem-derived
//! date is skipped when its value parses to a year after 2024: such
//! stamps record a copy, not a capture.

use vstd::prelude::*;
use vstd::string::StringExecFns;
use vstd::string::StrSliceExecFns;
use vstd::string::StringSliceAdditionalSpecFns;

use crate::strmap::{spec_get, StringMap};
use crate::strutil::{contains_substr, str_contains_substr};
use crate::file_ops::{AnalysisResult, ExtractionOutcome};
use crate::strutil::all_digit_chars;
use crate::timestamp::{
    fraction_millis, lemma_parse_timestamp_valid, parse_timestamp_with_subseconds,
    pow10, spec_parse_timestamp, CaptureTimestamp,
};

verus! {

/// Flat mapping from metadata tag name to raw string value, produced
/// once per file by a metadata source and immutable afterward.
pub type MetadataBag = StringMap;

/// What a metadata source yielded for one file, together with the
/// resolved capture instant.
#[derive(Clone)]
pub struct ExifData {
    pub timestamp: CaptureTimestamp,
    pub metadata: MetadataBag,
}

/// The bag carries a video-specific date field.
pub open spec fn spec_is_video(bag: Seq<(Seq<char>, Seq<char>)>) -> bool {
    spec_get(bag, "MediaCreateDate"@) is Some || spec_get(bag, "MediaModifyDate"@) is Some
}

/// The value parses and its year is after 2024: suspiciously recent,
/// probably a filesystem stamp.
pub open spec fn spec_is_recent(v: Seq<char>) -> bool {
    match spec_parse_timestamp(v) {
        Some(ct) => ct.year > 2024,
        None => false,
    }
}

/// Every character is `:`, a space or `0`: a placeholder, not a date.
pub open spec fn spec_is_zero_timestamp(v: Seq<char>) -> bool {
    forall|i: int| 0 <= i < v.len() ==> v[i] == ':' || v[i] == ' ' || v[i] == '0'
}

/// What one priority-list field contributes: nothing when absent, when
/// excluded as a filesystem-derived recent stamp, or when unparseable.
pub open spec fn try_field(bag: Seq<(Seq<char>, Seq<char>)>, name: Seq<char>) -> Option<
    CaptureTimestamp,
> {
    match spec_get(bag, name) {
        Some(v) => if contains_substr(name, "File"@) && spec_is_recent(v) {
            None
        } else {
            spec_parse_timestamp(v)
        },
        None => None,
    }
}

/// What a pre-combined subsecond field contributes: these fields carry
/// their fraction in the value itself and are never excluded.
pub open spec fn try_plain_field(bag: Seq<(Seq<char>, Seq<char>)>, name: Seq<char>) -> Option<
    CaptureTimestamp,
> {
    match spec_get(bag, name) {
        Some(v) => spec_parse_timestamp(v),
        None => None,
    }
}

/// A run of `k` zero characters.
pub open spec fn zeros(k: int) -> Seq<char> {
    Seq::new(k as nat, |i: int| '0')
}

/// The subsecond fraction right-padded with zeros to three characters.
pub open spec fn pad_subsec(s: Seq<char>) -> Seq<char> {
    if s.len() >= 3 {
        s
    } else {
        s + zeros(3 - s.len())
    }
}

/// A base timestamp and a separate subsecond field, joined with a
/// literal `.` for parsing.
pub open spec fn combined_value(base: Seq<char>, subsec: Seq<char>) -> Seq<char> {
    base + "."@ + pad_subsec(subsec)
}

/// What a (base, fraction) pair contributes: both fields must be
/// present and the joined string must parse.
pub open spec fn try_combination(
    bag: Seq<(Seq<char>, Seq<char>)>,
    base_name: Seq<char>,
    subsec_name: Seq<char>,
) -> Option<CaptureTimestamp> {
    match (spec_get(bag, base_name), spec_get(bag, subsec_name)) {
        (Some(b), Some(sv)) => spec_parse_timestamp(combined_value(b, sv)),
        _ => None,
    }
}

/// The last-resort field: accepted only when its raw value is not all
/// zero once separator punctuation is ignored.
pub open spec fn try_last_resort(bag: Seq<(Seq<char>, Seq<char>)>) -> Option<CaptureTimestamp> {
    match spec_get(bag, "CreateDate"@) {
        Some(v) => if spec_is_zero_timestamp(v) {
            None
        } else {
            spec_parse_timestamp(v)
        },
        None => None,
    }
}

/// The video priority list, top to bottom.
pub open spec fn spec_resolve_video(bag: Seq<(Seq<char>, Seq<char>)>) -> Option<CaptureTimestamp> {
    let r1 = try_field(bag, "DateTimeOriginal"@);
    if r1 is Some {
        r1
    } else {
        let r2 = try_field(bag, "CreationDate"@);
        if r2 is Some {
            r2
        } else {
            let r3 = try_field(bag, "MediaCreateDate"@);
            if r3 is Some {
                r3
            } else {
                let r4 = try_field(bag, "TrackCreateDate"@);
                if r4 is Some {
                    r4
                } else {
                    let r5 = try_field(bag, "Create Date"@);
                    if r5 is Some {
                        r5
                    } else {
                        let r6 = try_field(bag, "MakerNotes:CreateDate"@);
                        if r6 is Some {
                            r6
                        } else {
                            let r7 = try_field(bag, "MediaModifyDate"@);
                            if r7 is Some {
                                r7
                            } else {
                                let r8 = try_field(bag, "TrackModifyDate"@);
                                if r8 is Some {
                                    r8
                                } else {
                                    let r9 = try_field(bag, "Modify Date"@);
                                    if r9 is Some {
                                        r9
                                    } else {
                                        let r10 = try_field(bag, "MakerNotes:ModifyDate"@);
                                        if r10 is Some {
                                            r10
                                        } else {
                                            let r11 = try_field(bag, "NikonDateTime"@);
                                            if r11 is Some {
                                                r11
                                            } else {
                                                try_field(bag, "ModifyDate"@)
                                            }
                                        }
                                    }
                                }
                            }
                        }
                    }
                }
            }
        }
    }
}

/// The three pre-combined subsecond fields, top to bottom.
pub open spec fn spec_resolve_precombined(bag: Seq<(Seq<char>, Seq<char>)>) -> Option<
    CaptureTimestamp,
> {
    let r1 = try_plain_field(bag, "SubSecCreateDate"@);
    if r1 is Some {
        r1
    } else {
        let r2 = try_plain_field(bag, "SubSecDateTimeOriginal"@);
        if r2 is Some {
            r2
        } else {
            try_plain_field(bag, "SubSecModifyDate"@)
        }
    }
}

/// The three (base, fraction) combinations, top to bottom.
pub open spec fn spec_resolve_combinations(bag: Seq<(Seq<char>, Seq<char>)>) -> Option<
    CaptureTimestamp,
> {
    let r1 = try_combination(bag, "DateTimeOriginal"@, "SubSecTimeOriginal"@);
    if r1 is Some {
        r1
    } else {
        let r2 = try_combination(bag, "ModifyDate"@, "SubSecTime"@);
        if r2 is Some {
            r2
        } else {
            try_combination(bag, "DateTimeDigitized"@, "SubSecTimeDigitized"@)
        }
    }
}

/// The photo base-timestamp fallback fields, top to bottom.
pub open spec fn spec_resolve_fallback(bag: Seq<(Seq<char>, Seq<char>)>) -> Option<
    CaptureTimestamp,
> {
    let r1 = try_field(bag, "DateTimeOriginal"@);
    if r1 is Some {
        r1
    } else {
        let r2 = try_field(bag, "CreationDate"@);
        if r2 is Some {
            r2
        } else {
            let r3 = try_field(bag, "Create Date"@);
            if r3 is Some {
                r3
            } else {
                let r4 = try_field(bag, "MakerNotes:CreateDate"@);
                if r4 is Some {
                    r4
                } else {
                    let r5 = try_field(bag, "ModifyDate"@);
                    if r5 is Some {
                        r5
                    } else {
                        let r6 = try_field(bag, "Modify Date"@);
                        if r6 is Some {
                            r6
                        } else {
                            let r7 = try_field(bag, "MakerNotes:ModifyDate"@);
                            if r7 is Some {
                                r7
                            } else {
                                try_field(bag, "DateTimeDigitized"@)
                            }
                        }
                    }
                }
            }
        }
    }
}

/// The photo priority order: pre-combined subsecond fields first, then
/// base-plus-fraction combinations, then base fields alone, then the
/// last resort.
pub open spec fn spec_resolve_photo(bag: Seq<(Seq<char>, Seq<char>)>) -> Option<CaptureTimestamp> {
    let r1 = spec_resolve_precombined(bag);
    if r1 is Some {
        r1
    } else {
        let r2 = spec_resolve_combinations(bag);
        if r2 is Some {
            r2
        } else {
            let r3 = spec_resolve_fallback(bag);
            if r3 is Some {
                r3
            } else {
                try_last_resort(bag)
            }
        }
    }
}

/// The resolved capture instant of a bag, if any.
pub open spec fn spec_resolve(bag: Seq<(Seq<char>, Seq<char>)>) -> Option<CaptureTimestamp> {
    if spec_is_video(bag) {
        spec_resolve_video(bag)
    } else {
        spec_resolve_photo(bag)
    }
}

/// Walks the priority lists over metadata bags.
pub struct ExifProcessor {}

impl ExifProcessor {
    pub fn new() -> (r: ExifProcessor) {
        ExifProcessor {  }
    }

    /// Parses one metadata timestamp string.
    pub fn parse_timestamp_with_subseconds(&self, timestamp_str: &str) -> (r: Option<
        CaptureTimestamp,
    >)
        ensures
            r == spec_parse_timestamp(timestamp_str@),
    {
        parse_timestamp_with_subseconds(timestamp_str)
    }

    /// The value parses to a year after 2024.
    pub fn is_recent_timestamp(&self, timestamp_str: &str) -> (r: bool)
        ensures
            r == spec_is_recent(timestamp_str@),
    {
        match parse_timestamp_with_subseconds(timestamp_str) {
            Some(ct) => ct.year > 2024,
            None => false,
        }
    }

    /// The raw value is all zero once `:` and spaces are ignored.
    pub fn is_zero_timestamp(&self, timestamp_str: &str) -> (r: bool)
        ensures
            r == spec_is_zero_timestamp(timestamp_str@),
    {
        let n = timestamp_str.unicode_len();
        let mut i: usize = 0;
        while i < n
            invariant
                n == timestamp_str@.len(),
                i <= n,
                forall|j: int|
                    0 <= j < i ==> timestamp_str@[j] == ':' || timestamp_str@[j] == ' '
                        || timestamp_str@[j] == '0',
            decreases n - i,
        {
            let c = timestamp_str.get_char(i);
            if !(c == ':' || c == ' ' || c == '0') {
                return false;
            }
            i = i + 1;
        }
        true
    }

    fn try_field(&self, metadata: &MetadataBag, name: &str) -> (r: Option<CaptureTimestamp>)
        ensures
            r == try_field(metadata@, name@),
    {
        match metadata.get(name) {
            Some(v) => {
                if str_contains_substr(name, "File") && self.is_recent_timestamp(v.as_str()) {
                    None
                } else {
                    parse_timestamp_with_subseconds(v.as_str())
                }
            },
            None => None,
        }
    }

    fn try_plain_field(&self, metadata: &MetadataBag, name: &str) -> (r: Option<CaptureTimestamp>)
        ensures
            r == try_plain_field(metadata@, name@),
    {
        match metadata.get(name) {
            Some(v) => parse_timestamp_with_subseconds(v.as_str()),
            None => None,
        }
    }

    fn try_combination(&self, metadata: &MetadataBag, base_name: &str, subsec_name: &str) -> (r:
        Option<CaptureTimestamp>)
        ensures
            r == try_combination(metadata@, base_name@, subsec_name@),
    {
        let base = match metadata.get(base_name) {
            Some(b) => b,
            None => {
                return None;
            },
        };
        let subsec = match metadata.get(subsec_name) {
            Some(sv) => sv,
            None => {
                return None;
            },
        };
        let mut combined = base.clone();
        combined.append(".");
        combined.append(subsec.as_str());
        let k = subsec.as_str().unicode_len();
        if k == 0 {
            combined.append("000");
        } else if k == 1 {
            combined.append("00");
        } else if k == 2 {
            combined.append("0");
        }
        proof {
            reveal_strlit("0");
            reveal_strlit("00");
            reveal_strlit("000");
            assert(zeros(0) =~= Seq::<char>::empty());
            assert(zeros(1) =~= "0"@);
            assert(zeros(2) =~= "00"@);
            assert(zeros(3) =~= "000"@);
            assert(combined@ =~= combined_value(base@, subsec@));
        }
        parse_timestamp_with_subseconds(combined.as_str())
    }

    /// Classifies the bag and walks the matching priority list.
    pub fn extract_best_timestamp(&self, metadata: &MetadataBag) -> (r: Option<CaptureTimestamp>)
        ensures
            r == spec_resolve(metadata@),
    {
        let is_video = metadata.get("MediaCreateDate").is_some() || metadata.get(
            "MediaModifyDate",
        ).is_some();
        if is_video {
            self.extract_video_timestamp(metadata)
        } else {
            self.extract_photo_timestamp(metadata)
        }
    }

    /// The video priority list, top to bottom.
    pub fn extract_video_timestamp(&self, metadata: &MetadataBag) -> (r: Option<CaptureTimestamp>)
        ensures
            r == spec_resolve_video(metadata@),
    {
        if let Some(ct) = self.try_field(metadata, "DateTimeOriginal") {
            return Some(ct);
        }
        if let Some(ct) = self.try_field(metadata, "CreationDate") {
            return Some(ct);
        }
        if let Some(ct) = self.try_field(metadata, "MediaCreateDate") {
            return Some(ct);
        }
        if let Some(ct) = self.try_field(metadata, "TrackCreateDate") {
            return Some(ct);
        }
        if let Some(ct) = self.try_field(metadata, "Create Date") {
            return Some(ct);
        }
        if let Some(ct) = self.try_field(metadata, "MakerNotes:CreateDate") {
            return Some(ct);
        }
        if let Some(ct) = self.try_field(metadata, "MediaModifyDate") {
            return Some(ct);
        }
        if let Some(ct) = self.try_field(metadata, "TrackModifyDate") {
            return Some(ct);
        }
        if let Some(ct) = self.try_field(metadata, "Modify Date") {
            return Some(ct);
        }
        if let Some(ct) = self.try_field(metadata, "MakerNotes:ModifyDate") {
            return Some(ct);
        }
        if let Some(ct) = self.try_field(metadata, "NikonDateTime") {
            return Some(ct);
        }
        self.try_field(metadata, "ModifyDate")
    }

    /// The photo priority order, top to bottom.
    pub fn extract_photo_timestamp(&self, metadata: &MetadataBag) -> (r: Option<CaptureTimestamp>)
        ensures
            r == spec_resolve_photo(metadata@),
    {
        if let Some(ct) = self.try_plain_field(metadata, "SubSecCreateDate") {
            return Some(ct);
        }
        if let Some(ct) = self.try_plain_field(metadata, "SubSecDateTimeOriginal") {
            return Some(ct);
        }
        if let Some(ct) = self.try_plain_field(metadata, "SubSecModifyDate") {
            return Some(ct);
        }
        if let Some(ct) = self.try_combination(metadata, "DateTimeOriginal", "SubSecTimeOriginal") {
            return Some(ct);
        }
        if let Some(ct) = self.try_combination(metadata, "ModifyDate", "SubSecTime") {
            return Some(ct);
        }
        if let Some(ct) = self.try_combination(metadata, "DateTimeDigitized", "SubSecTimeDigitized")
            {
            return Some(ct);
        }
        if let Some(ct) = self.try_field(metadata, "DateTimeOriginal") {
            return Some(ct);
        }
        if let Some(ct) = self.try_field(metadata, "CreationDate") {
            return Some(ct);
        }
        if let Some(ct) = self.try_field(metadata, "Create Date") {
            return Some(ct);
        }
        if let Some(ct) = self.try_field(metadata, "MakerNotes:CreateDate") {
            return Some(ct);
        }
        if let Some(ct) = self.try_field(metadata, "ModifyDate") {
            return Some(ct);
        }
        if let Some(ct) = self.try_field(metadata, "Modify Date") {
            return Some(ct);
        }
        if let Some(ct) = self.try_field(metadata, "MakerNotes:ModifyDate") {
            return Some(ct);
        }
        if let Some(ct) = self.try_field(metadata, "DateTimeDigitized") {
            return Some(ct);
        }
        let v = match metadata.get("CreateDate") {
            Some(v) => v,
            None => {
                return None;
            },
        };
        if self.is_zero_timestamp(v.as_str()) {
            return None;
        }
        parse_timestamp_with_subseconds(v.as_str())
    }
}


proof fn lemma_try_field_valid(bag: Seq<(Seq<char>, Seq<char>)>, name: Seq<char>)
    ensures
        try_field(bag, name) matches Some(ct) ==> ct.valid(),
{
    match spec_get(bag, name) {
        Some(v) => lemma_parse_timestamp_valid(v),
        None => {},
    }
}

proof fn lemma_try_plain_field_valid(bag: Seq<(Seq<char>, Seq<char>)>, name: Seq<char>)
    ensures
        try_plain_field(bag, name) matches Some(ct) ==> ct.valid(),
{
    match spec_get(bag, name) {
        Some(v) => lemma_parse_timestamp_valid(v),
        None => {},
    }
}

proof fn lemma_try_combination_valid(
    bag: Seq<(Seq<char>, Seq<char>)>,
    base_name: Seq<char>,
    subsec_name: Seq<char>,
)
    ensures
        try_combination(bag, base_name, subsec_name) matches Some(ct) ==> ct.valid(),
{
    match (spec_get(bag, base_name), spec_get(bag, subsec_name)) {
        (Some(b), Some(sv)) => lemma_parse_timestamp_valid(combined_value(b, sv)),
        _ => {},
    }
}

proof fn lemma_try_last_resort_valid(bag: Seq<(Seq<char>, Seq<char>)>)
    ensures
        try_last_resort(bag) matches Some(ct) ==> ct.valid(),
{
    match spec_get(bag, "CreateDate"@) {
        Some(v) => lemma_parse_timestamp_valid(v),
        None => {},
    }
}

/// Whatever the priority lists yield is a valid calendar instant: every
/// path through the resolver goes through the timestamp grammar.
pub proof fn lemma_resolve_valid(bag: Seq<(Seq<char>, Seq<char>)>)
    ensures
        spec_resolve(bag) matches Some(ct) ==> ct.valid(),
{
    lemma_try_field_valid(bag, "DateTimeOriginal"@);
    lemma_try_field_valid(bag, "CreationDate"@);
    lemma_try_field_valid(bag, "MediaCreateDate"@);
    lemma_try_field_valid(bag, "TrackCreateDate"@);
    lemma_try_field_valid(bag, "Create Date"@);
    lemma_try_field_valid(bag, "MakerNotes:CreateDate"@);
    lemma_try_field_valid(bag, "MediaModifyDate"@);
    lemma_try_field_valid(bag, "TrackModifyDate"@);
    lemma_try_field_valid(bag, "Modify Date"@);
    lemma_try_field_valid(bag, "MakerNotes:ModifyDate"@);
    lemma_try_field_valid(bag, "NikonDateTime"@);
    lemma_try_field_valid(bag, "ModifyDate"@);
    lemma_try_field_valid(bag, "DateTimeDigitized"@);
    lemma_try_plain_field_valid(bag, "SubSecCreateDate"@);
    lemma_try_plain_field_valid(bag, "SubSecDateTimeOriginal"@);
    lemma_try_plain_field_valid(bag, "SubSecModifyDate"@);
    lemma_try_combination_valid(bag, "DateTimeOriginal"@, "SubSecTimeOriginal"@);
    lemma_try_combination_valid(bag, "ModifyDate"@, "SubSecTime"@);
    lemma_try_combination_valid(bag, "DateTimeDigitized"@, "SubSecTimeDigitized"@);
    lemma_try_last_resort_valid(bag);
}

/// Law: a photo bag whose pre-combined subsecond fields yield an
/// instant resolves to exactly that instant; no base-plus-fraction
/// combination and no bare base field can override it, whatever they
/// would parse to.
pub proof fn lemma_precombined_preferred(bag: Seq<(Seq<char>, Seq<char>)>)
    requires
        !spec_is_video(bag),
        spec_resolve_precombined(bag) is Some,
    ensures
        spec_resolve(bag) == spec_resolve_precombined(bag),
{
}

impl ExifProcessor {
    /// Analyzes one input file from what its metadata source yielded:
    /// a symbolic link is skipped with a note, extraction failure is a
    /// per-file soft failure, and an extracted bag is resolved and
    /// given a provisional name against an empty claimed set.
    pub fn analyze_single_file(&self, file_path: &String, extraction: ExtractionOutcome) -> (r:
        AnalysisResult)
        ensures
            r.file_path == *file_path,
            extraction is Symlink ==> {
                &&& r.success
                &&& r.exif_data is None
                &&& r.new_filename is None
                &&& (r.error matches Some(e) && e@
                    == "Skipped symlink - cannot process symbolic links"@)
            },
            extraction matches ExtractionOutcome::Failed(msg) ==> {
                &&& !r.success
                &&& r.exif_data is None
                &&& r.new_filename is None
                &&& r.error == Some(msg)
            },
            extraction matches ExtractionOutcome::Extracted(bag) ==> match spec_resolve(bag@) {
                Some(ct) => {
                    &&& r.success
                    &&& r.error is None
                    &&& (r.exif_data matches Some(d) && d.timestamp == ct && d.metadata == bag)
                    &&& (r.new_filename matches Some(f) && f@ == crate::naming::spec_generate_filename(
                        ct,
                        crate::file_ops::spec_get_file_extension(file_path@),
                        Seq::<String>::empty(),
                    ))
                },
                None => {
                    &&& !r.success
                    &&& r.exif_data is None
                    &&& r.new_filename is None
                    &&& (r.error matches Some(e) && e@ == "No valid EXIF timestamp found for: "@
                        + file_path@)
                },
            },
            r.exif_data matches Some(d) ==> d.timestamp.valid(),
    {
        match extraction {
            ExtractionOutcome::Symlink => AnalysisResult {
                file_path: file_path.clone(),
                success: true,
                error: Some(String::from_str("Skipped symlink - cannot process symbolic links")),
                exif_data: None,
                new_filename: None,
            },
            ExtractionOutcome::Failed(msg) => AnalysisResult {
                file_path: file_path.clone(),
                success: false,
                error: Some(msg),
                exif_data: None,
                new_filename: None,
            },
            ExtractionOutcome::Extracted(bag) => {
                match self.extract_best_timestamp(&bag) {
                    Some(ct) => {
                        proof {
                            lemma_resolve_valid(bag@);
                        }
                        let extension = crate::file_ops::get_file_extension(file_path.as_str());
                        let generator = crate::naming::FilenameGenerator::new();
                        let empty: Vec<String> = Vec::new();
                        proof {
                            assert(empty@ =~= Seq::<String>::empty());
                        }
                        let name = generator.generate_filename(&ct, extension.as_str(), &empty);
                        AnalysisResult {
                            file_path: file_path.clone(),
                            success: true,
                            error: None,
                            exif_data: Some(ExifData { timestamp: ct, metadata: bag }),
                            new_filename: Some(name),
                        }
                    },
                    None => {
                        let mut e = String::from_str("No valid EXIF timestamp found for: ");
                        e.append(file_path.as_str());
                        AnalysisResult {
                            file_path: file_path.clone(),
                            success: false,
                            error: Some(e),
                            exif_data: None,
                            new_filename: None,
                        }
                    },
                }
            },
        }
    }
}


proof fn lemma_digits_val_append_zeros(s: Seq<char>, m: int)
    requires
        m >= 0,
    ensures
        crate::strutil::digits_val(s + zeros(m)) == crate::strutil::digits_val(s) * pow10(m),
    decreases m,
{
    if m == 0 {
        assert(s + zeros(0) =~= s);
    } else {
        lemma_digits_val_append_zeros(s, m - 1);
        let prev = s + zeros(m - 1);
        let cur = s + zeros(m);
        assert(cur =~= prev.push('0'));
        assert(cur.drop_last() =~= prev);
        assert(cur.last() == '0');
        assert(crate::strutil::digits_val(cur) == crate::strutil::digits_val(prev) * 10);
        let dv = crate::strutil::digits_val(s);
        assert(dv * pow10(m - 1) * 10 == dv * pow10(m)) by (nonlinear_arith)
            requires
                pow10(m) == 10 * pow10(m - 1),
        ;
    }
}

/// Law: when a base timestamp is combined with a separate subsecond
/// field, the resolved millisecond value is the fraction right-padded
/// with zeros to three digits, and truncated to three digits when
/// longer.
pub proof fn lemma_combined_fraction_padding(base: Seq<char>, frac: Seq<char>)
    requires
        !base.contains('.'),
        base.len() > 0 ==> !crate::strutil::is_space_char(base[0]),
        all_digit_chars(frac),
        spec_parse_timestamp(combined_value(base, frac)) is Some,
    ensures
        frac.len() < 3 ==> spec_parse_timestamp(combined_value(base, frac)).unwrap().millis as int
            == crate::strutil::digits_val(frac) * pow10(3 - frac.len()),
        frac.len() >= 3 ==> spec_parse_timestamp(combined_value(base, frac)).unwrap().millis as int
            == crate::strutil::digits_val(frac.take(3)),
{
    reveal_strlit(".");
    let k = frac.len() as int;
    let pad = pad_subsec(frac);
    let s = combined_value(base, frac);
    let bl = base.len() as int;
    assert(s.len() == bl + 1 + pad.len());
    assert(s[bl] == '.');
    assert(all_digit_chars(pad)) by {
        assert forall|i: int| 0 <= i < pad.len() implies crate::strutil::is_digit_char(
            #[trigger] pad[i],
        ) by {
            if k < 3 && i >= k {
                assert(pad[i] == '0');
            } else {
                assert(pad[i] == frac[i]);
            }
        }
    }
    assert(pad.len() >= 3 || pad.len() == k);
    assert(pad.len() >= 1) by {
        if k < 3 {
            assert(pad.len() == 3);
        }
    }
    assert forall|j: int| 0 <= j < pad.len() implies s[bl + 1 + j] == pad[j] by {}
    assert forall|j: int| 0 <= j < bl implies s[j] == base[j] by {}
    // the combined string is already trimmed
    assert(!crate::strutil::is_space_char(s[0])) by {
        if bl > 0 {
            assert(s[0] == base[0]);
        } else {
            assert(s[0] == '.');
        }
    }
    assert(crate::strutil::trim_start(s) == s);
    assert(s.last() == pad.last());
    assert(crate::strutil::is_digit_char(s.last()));
    assert(crate::strutil::trim_end(s) == s);
    assert(crate::strutil::spec_trim(s) == s);
    // the dot we introduced is the last one
    s.index_of_last_ensures('.');
    assert(s.contains('.')) by {
        assert(s[bl] == '.');
    }
    let idx = s.index_of_last('.').unwrap();
    assert forall|j: int| bl < j < s.len() implies s[j] != '.' by {
        assert(s[j] == pad[j - bl - 1]);
        assert(crate::strutil::is_digit_char(pad[j - bl - 1]));
    }
    assert(idx >= bl);
    assert(idx <= bl);
    let after = s.skip(bl + 1);
    assert(after =~= pad);
    // no timezone sign follows the fraction
    crate::timestamp::lemma_first_sign(pad);
    match crate::timestamp::first_sign(pad) {
        Some(p) => {
            assert(crate::timestamp::is_sign_char(pad[p]));
            assert(crate::strutil::is_digit_char(pad[p]));
            assert(false);
        },
        None => {},
    }
    // the fraction value
    let t = if pad.len() <= 3 {
        pad
    } else {
        pad.take(3)
    };
    assert(all_digit_chars(t)) by {
        assert forall|i: int| 0 <= i < t.len() implies crate::strutil::is_digit_char(
            #[trigger] t[i],
        ) by {
            assert(t[i] == pad[i]);
        }
    }
    assert(t.len() >= 1);
    assert(t[0] != '"');
    assert(crate::timestamp::trim_quote_start(t) == t);
    assert(t.last() != '"');
    assert(crate::timestamp::trim_quote_end(t) == t);
    assert(fraction_millis(pad) == Some(crate::strutil::digits_val(t) * pow10(3 - t.len())));
    crate::timestamp::lemma_fraction_millis_range(pad);
    if k < 3 {
        assert(t =~= frac + zeros(3 - k));
        lemma_digits_val_append_zeros(frac, 3 - k);
        assert(pow10(0) == 1);
        assert(crate::strutil::digits_val(t) * 1 == crate::strutil::digits_val(t));
    } else {
        assert(t =~= frac.take(3));
        assert(pow10(0) == 1);
    }
}

impl ExifProcessor {
    /// Adds one tag to a writer, choosing the narrowest type its value
    /// parses as: a 16-bit integer, then a 32-bit integer, then ASCII
    /// text.
    pub fn add_tag_to_writer(
        &self,
        writer: &mut crate::exif_writer::ExifWriter,
        tag_name: &str,
        tag_value: &str,
    ) -> (r: Result<(), String>)
        requires
            tag_value.spec_bytes().len() < u32::MAX,
        ensures
            match crate::exif_writer::spec_tag_id(tag_name@) {
                Some(id) => {
                    &&& r is Ok
                    &&& final(writer).spec_entries().len() == old(writer).spec_entries().len() + 1
                    &&& final(writer).spec_entries().drop_last() == old(writer).spec_entries()
                    &&& final(writer).spec_entries().last().tag_id == id
                    &&& {
                        let short = crate::strutil::spec_parse_decimal(tag_value@, 65535);
                        let long = crate::strutil::spec_parse_decimal(tag_value@, 0xffffffff);
                        if short is Some {
                            &&& final(writer).spec_entries().last().tag_type is Short
                            &&& final(writer).spec_entries().last().value@
                                == crate::exif_writer::u16_bytes(
                                short.unwrap() as u16,
                                old(writer).spec_le(),
                            )
                        } else if long is Some {
                            &&& final(writer).spec_entries().last().tag_type is Long
                            &&& final(writer).spec_entries().last().value@
                                == crate::exif_writer::u32_bytes(
                                long.unwrap() as u32,
                                old(writer).spec_le(),
                            )
                        } else {
                            &&& final(writer).spec_entries().last().tag_type is Ascii
                            &&& final(writer).spec_entries().last().value@
                                == tag_value.spec_bytes().push(0)
                        }
                    }
                },
                None => {
                    &&& (r matches Err(m) && m@ == "Unknown EXIF tag: "@ + tag_name@)
                    &&& final(writer).spec_entries() == old(writer).spec_entries()
                },
            },
            final(writer).spec_le() == old(writer).spec_le(),
            final(writer).spec_next_off() == old(writer).spec_next_off(),
    {
        if let Some(short_val) = crate::strutil::parse_decimal(tag_value, 65535) {
            writer.add_short_tag(tag_name, short_val as u16)
        } else if let Some(long_val) = crate::strutil::parse_decimal(tag_value, 0xffffffff) {
            writer.add_long_tag(tag_name, long_val as u32)
        } else {
            writer.add_ascii_tag(tag_name, tag_value)
        }
    }
}

} // verus!
