//! A writer for EXIF data in TIFF structure: tags collected into an
//! image file directory and rendered to bytes, with an APP1 segment
//! builder and the splice that plants the segment into a JPEG byte
//! stream.  Everything here works on in-memory bytes; reading and
//! writing files is the caller's business.

use vstd::prelude::*;
use vstd::string::StringExecFns;
use vstd::string::StrSliceExecFns;
use vstd::string::StringSliceAdditionalSpecFns;

use crate::strutil::{dec2, push_dec2, str_eq};
use crate::timestamp::CaptureTimestamp;

verus! {

/// EXIF tag data types with their on-disk codes and element sizes.
#[derive(Debug, Clone, Copy, PartialEq, Eq, Structural)]
pub enum ExifTagType {
    Byte,
    Ascii,
    Short,
    Long,
    Rational,
    Undefined,
    SLong,
    SRational,
}

/// The element size of a tag type, in bytes.
pub open spec fn tag_type_size(t: ExifTagType) -> u32 {
    match t {
        ExifTagType::Byte => 1,
        ExifTagType::Ascii => 1,
        ExifTagType::Short => 2,
        ExifTagType::Long => 4,
        ExifTagType::Rational => 8,
        ExifTagType::Undefined => 1,
        ExifTagType::SLong => 4,
        ExifTagType::SRational => 8,
    }
}

/// The numeric code of a tag type on disk.
pub open spec fn tag_type_code(t: ExifTagType) -> u16 {
    match t {
        ExifTagType::Byte => 1,
        ExifTagType::Ascii => 2,
        ExifTagType::Short => 3,
        ExifTagType::Long => 4,
        ExifTagType::Rational => 5,
        ExifTagType::Undefined => 7,
        ExifTagType::SLong => 9,
        ExifTagType::SRational => 10,
    }
}

impl ExifTagType {
    pub fn size(&self) -> (r: u32)
        ensures
            r == tag_type_size(*self),
    {
        match self {
            ExifTagType::Byte => 1,
            ExifTagType::Ascii => 1,
            ExifTagType::Short => 2,
            ExifTagType::Long => 4,
            ExifTagType::Rational => 8,
            ExifTagType::Undefined => 1,
            ExifTagType::SLong => 4,
            ExifTagType::SRational => 8,
        }
    }

    /// The on-disk code of this type.
    pub fn code(&self) -> (r: u16)
        ensures
            r == tag_type_code(*self),
    {
        match self {
            ExifTagType::Byte => 1,
            ExifTagType::Ascii => 2,
            ExifTagType::Short => 3,
            ExifTagType::Long => 4,
            ExifTagType::Rational => 5,
            ExifTagType::Undefined => 7,
            ExifTagType::SLong => 9,
            ExifTagType::SRational => 10,
        }
    }
}

/// One EXIF tag: identifier, type, element count and raw value bytes.
#[derive(Debug)]
pub struct ExifTag {
    pub tag_id: u16,
    pub tag_type: ExifTagType,
    pub count: u32,
    pub value: Vec<u8>,
}

/// An image file directory: its entries and the offset of the next one.
#[derive(Debug)]
pub struct ExifIfd {
    pub entries: Vec<ExifTag>,
    pub next_ifd_offset: u32,
}

/// The tag identifier a tag name maps to, from the EXIF tag tables.
pub open spec fn spec_tag_id(name: Seq<char>) -> Option<u16> {
    if name == "ImageWidth"@ {
        Some(0x0100)
    } else if name == "ImageLength"@ {
        Some(0x0101)
    } else if name == "BitsPerSample"@ {
        Some(0x0102)
    } else if name == "Compression"@ {
        Some(0x0103)
    } else if name == "PhotometricInterpretation"@ {
        Some(0x0106)
    } else if name == "Orientation"@ {
        Some(0x0112)
    } else if name == "SamplesPerPixel"@ {
        Some(0x0115)
    } else if name == "PlanarConfiguration"@ {
        Some(0x011C)
    } else if name == "YCbCrSubSampling"@ {
        Some(0x0212)
    } else if name == "YCbCrPositioning"@ {
        Some(0x0213)
    } else if name == "XResolution"@ {
        Some(0x011A)
    } else if name == "YResolution"@ {
        Some(0x011B)
    } else if name == "ResolutionUnit"@ {
        Some(0x0128)
    } else if name == "DateTime"@ {
        Some(0x0132)
    } else if name == "Artist"@ {
        Some(0x013B)
    } else if name == "Copyright"@ {
        Some(0x8298)
    } else if name == "ExposureTime"@ {
        Some(0x829A)
    } else if name == "FNumber"@ {
        Some(0x829D)
    } else if name == "ExposureProgram"@ {
        Some(0x8822)
    } else if name == "ISOSpeedRatings"@ {
        Some(0x8827)
    } else if name == "ExifVersion"@ {
        Some(0x9000)
    } else if name == "DateTimeOriginal"@ {
        Some(0x9003)
    } else if name == "DateTimeDigitized"@ {
        Some(0x9004)
    } else if name == "ComponentsConfiguration"@ {
        Some(0x9101)
    } else if name == "CompressedBitsPerPixel"@ {
        Some(0x9102)
    } else if name == "ShutterSpeedValue"@ {
        Some(0x9201)
    } else if name == "ApertureValue"@ {
        Some(0x9202)
    } else if name == "BrightnessValue"@ {
        Some(0x9203)
    } else if name == "ExposureBiasValue"@ {
        Some(0x9204)
    } else if name == "MaxApertureValue"@ {
        Some(0x9205)
    } else if name == "SubjectDistance"@ {
        Some(0x9206)
    } else if name == "MeteringMode"@ {
        Some(0x9207)
    } else if name == "LightSource"@ {
        Some(0x9208)
    } else if name == "Flash"@ {
        Some(0x9209)
    } else if name == "FocalLength"@ {
        Some(0x920A)
    } else if name == "SubjectArea"@ {
        Some(0x9214)
    } else if name == "MakerNote"@ {
        Some(0x927C)
    } else if name == "UserComment"@ {
        Some(0x9286)
    } else if name == "SubSecTime"@ {
        Some(0x9290)
    } else if name == "SubSecTimeOriginal"@ {
        Some(0x9291)
    } else if name == "SubSecTimeDigitized"@ {
        Some(0x9292)
    } else if name == "FlashpixVersion"@ {
        Some(0xA000)
    } else if name == "ColorSpace"@ {
        Some(0xA001)
    } else if name == "PixelXDimension"@ {
        Some(0xA002)
    } else if name == "PixelYDimension"@ {
        Some(0xA003)
    } else if name == "RelatedSoundFile"@ {
        Some(0xA004)
    } else if name == "InteroperabilityIFD"@ {
        Some(0xA005)
    } else if name == "FlashEnergy"@ {
        Some(0xA20B)
    } else if name == "SpatialFrequencyResponse"@ {
        Some(0xA20C)
    } else if name == "FocalPlaneXResolution"@ {
        Some(0xA20E)
    } else if name == "FocalPlaneYResolution"@ {
        Some(0xA20F)
    } else if name == "FocalPlaneResolutionUnit"@ {
        Some(0xA210)
    } else if name == "SubjectLocation"@ {
        Some(0xA214)
    } else if name == "ExposureIndex"@ {
        Some(0xA215)
    } else if name == "SensingMethod"@ {
        Some(0xA217)
    } else if name == "FileSource"@ {
        Some(0xA300)
    } else if name == "SceneType"@ {
        Some(0xA301)
    } else if name == "CFAPattern"@ {
        Some(0xA302)
    } else if name == "CustomRendered"@ {
        Some(0xA401)
    } else if name == "ExposureMode"@ {
        Some(0xA402)
    } else if name == "WhiteBalance"@ {
        Some(0xA403)
    } else if name == "DigitalZoomRatio"@ {
        Some(0xA404)
    } else if name == "FocalLengthIn35mmFilm"@ {
        Some(0xA405)
    } else if name == "SceneCaptureType"@ {
        Some(0xA406)
    } else if name == "GainControl"@ {
        Some(0xA407)
    } else if name == "Contrast"@ {
        Some(0xA408)
    } else if name == "Saturation"@ {
        Some(0xA409)
    } else if name == "Sharpness"@ {
        Some(0xA40A)
    } else if name == "DeviceSettingDescription"@ {
        Some(0xA40B)
    } else if name == "SubjectDistanceRange"@ {
        Some(0xA40C)
    } else if name == "ImageUniqueID"@ {
        Some(0xA420)
    } else if name == "CameraOwnerName"@ {
        Some(0xA430)
    } else if name == "BodySerialNumber"@ {
        Some(0xA431)
    } else if name == "LensSpecification"@ {
        Some(0xA432)
    } else if name == "LensMake"@ {
        Some(0xA433)
    } else if name == "LensModel"@ {
        Some(0xA434)
    } else if name == "LensSerialNumber"@ {
        Some(0xA435)
    } else {
        None
    }
}

/// Looks a tag name up in the EXIF tag tables.
pub fn get_tag_id(name: &str) -> (r: Option<u16>)
    ensures
        r == spec_tag_id(name@),
{
    if str_eq(name, "ImageWidth") {
        Some(0x0100)
    } else if str_eq(name, "ImageLength") {
        Some(0x0101)
    } else if str_eq(name, "BitsPerSample") {
        Some(0x0102)
    } else if str_eq(name, "Compression") {
        Some(0x0103)
    } else if str_eq(name, "PhotometricInterpretation") {
        Some(0x0106)
    } else if str_eq(name, "Orientation") {
        Some(0x0112)
    } else if str_eq(name, "SamplesPerPixel") {
        Some(0x0115)
    } else if str_eq(name, "PlanarConfiguration") {
        Some(0x011C)
    } else if str_eq(name, "YCbCrSubSampling") {
        Some(0x0212)
    } else if str_eq(name, "YCbCrPositioning") {
        Some(0x0213)
    } else if str_eq(name, "XResolution") {
        Some(0x011A)
    } else if str_eq(name, "YResolution") {
        Some(0x011B)
    } else if str_eq(name, "ResolutionUnit") {
        Some(0x0128)
    } else if str_eq(name, "DateTime") {
        Some(0x0132)
    } else if str_eq(name, "Artist") {
        Some(0x013B)
    } else if str_eq(name, "Copyright") {
        Some(0x8298)
    } else if str_eq(name, "ExposureTime") {
        Some(0x829A)
    } else if str_eq(name, "FNumber") {
        Some(0x829D)
    } else if str_eq(name, "ExposureProgram") {
        Some(0x8822)
    } else if str_eq(name, "ISOSpeedRatings") {
        Some(0x8827)
    } else if str_eq(name, "ExifVersion") {
        Some(0x9000)
    } else if str_eq(name, "DateTimeOriginal") {
        Some(0x9003)
    } else if str_eq(name, "DateTimeDigitized") {
        Some(0x9004)
    } else if str_eq(name, "ComponentsConfiguration") {
        Some(0x9101)
    } else if str_eq(name, "CompressedBitsPerPixel") {
        Some(0x9102)
    } else if str_eq(name, "ShutterSpeedValue") {
        Some(0x9201)
    } else if str_eq(name, "ApertureValue") {
        Some(0x9202)
    } else if str_eq(name, "BrightnessValue") {
        Some(0x9203)
    } else if str_eq(name, "ExposureBiasValue") {
        Some(0x9204)
    } else if str_eq(name, "MaxApertureValue") {
        Some(0x9205)
    } else if str_eq(name, "SubjectDistance") {
        Some(0x9206)
    } else if str_eq(name, "MeteringMode") {
        Some(0x9207)
    } else if str_eq(name, "LightSource") {
        Some(0x9208)
    } else if str_eq(name, "Flash") {
        Some(0x9209)
    } else if str_eq(name, "FocalLength") {
        Some(0x920A)
    } else if str_eq(name, "SubjectArea") {
        Some(0x9214)
    } else if str_eq(name, "MakerNote") {
        Some(0x927C)
    } else if str_eq(name, "UserComment") {
        Some(0x9286)
    } else if str_eq(name, "SubSecTime") {
        Some(0x9290)
    } else if str_eq(name, "SubSecTimeOriginal") {
        Some(0x9291)
    } else if str_eq(name, "SubSecTimeDigitized") {
        Some(0x9292)
    } else if str_eq(name, "FlashpixVersion") {
        Some(0xA000)
    } else if str_eq(name, "ColorSpace") {
        Some(0xA001)
    } else if str_eq(name, "PixelXDimension") {
        Some(0xA002)
    } else if str_eq(name, "PixelYDimension") {
        Some(0xA003)
    } else if str_eq(name, "RelatedSoundFile") {
        Some(0xA004)
    } else if str_eq(name, "InteroperabilityIFD") {
        Some(0xA005)
    } else if str_eq(name, "FlashEnergy") {
        Some(0xA20B)
    } else if str_eq(name, "SpatialFrequencyResponse") {
        Some(0xA20C)
    } else if str_eq(name, "FocalPlaneXResolution") {
        Some(0xA20E)
    } else if str_eq(name, "FocalPlaneYResolution") {
        Some(0xA20F)
    } else if str_eq(name, "FocalPlaneResolutionUnit") {
        Some(0xA210)
    } else if str_eq(name, "SubjectLocation") {
        Some(0xA214)
    } else if str_eq(name, "ExposureIndex") {
        Some(0xA215)
    } else if str_eq(name, "SensingMethod") {
        Some(0xA217)
    } else if str_eq(name, "FileSource") {
        Some(0xA300)
    } else if str_eq(name, "SceneType") {
        Some(0xA301)
    } else if str_eq(name, "CFAPattern") {
        Some(0xA302)
    } else if str_eq(name, "CustomRendered") {
        Some(0xA401)
    } else if str_eq(name, "ExposureMode") {
        Some(0xA402)
    } else if str_eq(name, "WhiteBalance") {
        Some(0xA403)
    } else if str_eq(name, "DigitalZoomRatio") {
        Some(0xA404)
    } else if str_eq(name, "FocalLengthIn35mmFilm") {
        Some(0xA405)
    } else if str_eq(name, "SceneCaptureType") {
        Some(0xA406)
    } else if str_eq(name, "GainControl") {
        Some(0xA407)
    } else if str_eq(name, "Contrast") {
        Some(0xA408)
    } else if str_eq(name, "Saturation") {
        Some(0xA409)
    } else if str_eq(name, "Sharpness") {
        Some(0xA40A)
    } else if str_eq(name, "DeviceSettingDescription") {
        Some(0xA40B)
    } else if str_eq(name, "SubjectDistanceRange") {
        Some(0xA40C)
    } else if str_eq(name, "ImageUniqueID") {
        Some(0xA420)
    } else if str_eq(name, "CameraOwnerName") {
        Some(0xA430)
    } else if str_eq(name, "BodySerialNumber") {
        Some(0xA431)
    } else if str_eq(name, "LensSpecification") {
        Some(0xA432)
    } else if str_eq(name, "LensMake") {
        Some(0xA433)
    } else if str_eq(name, "LensModel") {
        Some(0xA434)
    } else if str_eq(name, "LensSerialNumber") {
        Some(0xA435)
    } else {
        None
    }
}


/// The two bytes of `v` in the given byte order.
pub open spec fn u16_bytes(v: u16, le: bool) -> Seq<u8> {
    if le {
        seq![(v & 0xff) as u8, ((v >> 8) & 0xff) as u8]
    } else {
        seq![((v >> 8) & 0xff) as u8, (v & 0xff) as u8]
    }
}

/// The four bytes of `v` in the given byte order.
pub open spec fn u32_bytes(v: u32, le: bool) -> Seq<u8> {
    if le {
        seq![
            (v & 0xff) as u8,
            ((v >> 8) & 0xff) as u8,
            ((v >> 16) & 0xff) as u8,
            ((v >> 24) & 0xff) as u8,
        ]
    } else {
        seq![
            ((v >> 24) & 0xff) as u8,
            ((v >> 16) & 0xff) as u8,
            ((v >> 8) & 0xff) as u8,
            (v & 0xff) as u8,
        ]
    }
}

/// A run of `k` zero bytes.
pub open spec fn byte_zeros(k: int) -> Seq<u8> {
    Seq::new(k as nat, |i: int| 0u8)
}

fn push_u16(data: &mut Vec<u8>, v: u16, le: bool)
    ensures
        final(data)@ == old(data)@ + u16_bytes(v, le),
{
    if le {
        data.push((v & 0xff) as u8);
        data.push(((v >> 8) & 0xff) as u8);
    } else {
        data.push(((v >> 8) & 0xff) as u8);
        data.push((v & 0xff) as u8);
    }
    proof {
        assert(data@ =~= old(data)@ + u16_bytes(v, le));
    }
}

fn push_u32(data: &mut Vec<u8>, v: u32, le: bool)
    ensures
        final(data)@ == old(data)@ + u32_bytes(v, le),
{
    if le {
        data.push((v & 0xff) as u8);
        data.push(((v >> 8) & 0xff) as u8);
        data.push(((v >> 16) & 0xff) as u8);
        data.push(((v >> 24) & 0xff) as u8);
    } else {
        data.push(((v >> 24) & 0xff) as u8);
        data.push(((v >> 16) & 0xff) as u8);
        data.push(((v >> 8) & 0xff) as u8);
        data.push((v & 0xff) as u8);
    }
    proof {
        assert(data@ =~= old(data)@ + u32_bytes(v, le));
    }
}

/// The 12 bytes of one directory entry: identifier, type code, count,
/// and the value itself zero-padded to four bytes when it fits, else a
/// placeholder offset word.
pub open spec fn ifd_entry_bytes(e: ExifTag, le: bool) -> Seq<u8> {
    u16_bytes(e.tag_id, le) + u16_bytes(tag_type_code(e.tag_type), le) + u32_bytes(e.count, le) + (
    if e.value@.len() <= 4 {
        e.value@ + byte_zeros(4 - e.value@.len())
    } else {
        u32_bytes(0, le)
    })
}

pub proof fn lemma_ifd_entry_bytes_len(e: ExifTag, le: bool)
    ensures
        ifd_entry_bytes(e, le).len() == 12,
{
}

/// The concatenated 12-byte records of a directory's entries.
pub open spec fn entries_bytes(entries: Seq<ExifTag>, le: bool) -> Seq<u8>
    decreases entries.len(),
{
    if entries.len() == 0 {
        Seq::empty()
    } else {
        entries_bytes(entries.drop_last(), le) + ifd_entry_bytes(entries.last(), le)
    }
}

pub proof fn lemma_entries_bytes_len(entries: Seq<ExifTag>, le: bool)
    ensures
        entries_bytes(entries, le).len() == 12 * entries.len(),
    decreases entries.len(),
{
    if entries.len() > 0 {
        lemma_entries_bytes_len(entries.drop_last(), le);
        lemma_ifd_entry_bytes_len(entries.last(), le);
    }
}

/// The out-of-line value area after a directory: every value longer
/// than four bytes, each aligned to an even offset with a single zero
/// byte when needed.  `cur` is the absolute offset where the area
/// starts.
pub open spec fn overflow_area(entries: Seq<ExifTag>, cur: int) -> Seq<u8>
    decreases entries.len(),
{
    if entries.len() == 0 {
        Seq::empty()
    } else {
        let e = entries[0];
        let part = if e.value@.len() > 4 {
            (if cur % 2 == 1 {
                seq![0u8]
            } else {
                Seq::<u8>::empty()
            }) + e.value@
        } else {
            Seq::<u8>::empty()
        };
        part + overflow_area(entries.drop_first(), cur + part.len())
    }
}

/// The TIFF header: byte-order mark, the magic number 42, and the
/// offset of the first directory.
pub open spec fn tiff_header(le: bool) -> Seq<u8> {
    (if le {
        seq![0x49u8, 0x49u8]
    } else {
        seq![0x4du8, 0x4du8]
    }) + u16_bytes(42, le) + u32_bytes(8, le)
}

/// A whole directory as bytes, starting at absolute offset `start`:
/// entry count, the 12-byte entries, the next-directory offset, then
/// the out-of-line value area.
pub open spec fn ifd_bytes(entries: Seq<ExifTag>, next_off: u32, le: bool, start: int) -> Seq<
    u8,
> {
    u16_bytes(entries.len() as u16, le) + entries_bytes(entries, le) + u32_bytes(next_off, le)
        + overflow_area(entries, start + 2 + 12 * entries.len() + 4)
}

/// A digit as its ASCII byte.
pub open spec fn digit_byte(d: int) -> u8 {
    (48 + d) as u8
}

/// Two zero-padded decimal digit bytes.
pub open spec fn dec2_bytes(v: int) -> Seq<u8> {
    seq![digit_byte(v / 10), digit_byte(v % 10)]
}

/// Four zero-padded decimal digit bytes.
pub open spec fn dec4_bytes(v: int) -> Seq<u8> {
    seq![
        digit_byte(v / 1000),
        digit_byte((v / 100) % 10),
        digit_byte((v / 10) % 10),
        digit_byte(v % 10),
    ]
}

/// The EXIF text form of an instant: `YYYY:MM:DD HH:MM:SS` as ASCII
/// bytes; the millisecond fraction has no place in this field.
pub open spec fn timestamp_text_bytes(ts: CaptureTimestamp) -> Seq<u8> {
    dec4_bytes(ts.year as int) + seq![58u8] + dec2_bytes(ts.month as int) + seq![58u8] + dec2_bytes(
        ts.day as int,
    ) + seq![32u8] + dec2_bytes(ts.hour as int) + seq![58u8] + dec2_bytes(ts.minute as int) + seq![
        58u8,
    ] + dec2_bytes(ts.second as int)
}

fn push_dec2_bytes(out: &mut Vec<u8>, v: u32)
    requires
        v <= 99,
    ensures
        final(out)@ == old(out)@ + dec2_bytes(v as int),
{
    out.push((48 + v / 10) as u8);
    out.push((48 + v % 10) as u8);
    proof {
        assert(out@ =~= old(out)@ + dec2_bytes(v as int));
    }
}

fn push_dec4_bytes(out: &mut Vec<u8>, v: u32)
    requires
        v <= 9999,
    ensures
        final(out)@ == old(out)@ + dec4_bytes(v as int),
{
    out.push((48 + v / 1000) as u8);
    out.push((48 + (v / 100) % 10) as u8);
    out.push((48 + (v / 10) % 10) as u8);
    out.push((48 + v % 10) as u8);
    proof {
        assert(out@ =~= old(out)@ + dec4_bytes(v as int));
    }
}

/// Collects EXIF tags into a primary directory and renders the TIFF
/// structure to bytes.
pub struct ExifWriter {
    primary_ifd: ExifIfd,
    is_little_endian: bool,
}

impl ExifWriter {
    /// The collected entries of the primary directory.
    pub closed spec fn spec_entries(&self) -> Seq<ExifTag> {
        self.primary_ifd.entries@
    }

    /// The byte order the writer renders in.
    pub closed spec fn spec_le(&self) -> bool {
        self.is_little_endian
    }

    /// The recorded offset of the next directory.
    pub closed spec fn spec_next_off(&self) -> u32 {
        self.primary_ifd.next_ifd_offset
    }

    /// The number of collected entries.
    pub fn entry_count(&self) -> (r: usize)
        ensures
            r == self.spec_entries().len(),
    {
        self.primary_ifd.entries.len()
    }

    pub fn new() -> (r: ExifWriter)
        ensures
            r.spec_entries() == Seq::<ExifTag>::empty(),
            r.spec_le(),
            r.spec_next_off() == 0,
    {
        let r = ExifWriter {
            primary_ifd: ExifIfd { entries: Vec::new(), next_ifd_offset: 0 },
            is_little_endian: true,
        };
        proof {
            assert(r.spec_entries() =~= Seq::<ExifTag>::empty());
        }
        r
    }

    fn push_entry(&mut self, tag_id: u16, tag_type: ExifTagType, count: u32, value: Vec<u8>)
        ensures
            final(self).spec_entries().len() == old(self).spec_entries().len() + 1,
            final(self).spec_entries().drop_last() == old(self).spec_entries(),
            final(self).spec_entries().last().tag_id == tag_id,
            final(self).spec_entries().last().tag_type == tag_type,
            final(self).spec_entries().last().count == count,
            final(self).spec_entries().last().value == value,
            final(self).spec_le() == old(self).spec_le(),
            final(self).spec_next_off() == old(self).spec_next_off(),
    {
        self.primary_ifd.entries.push(ExifTag { tag_id, tag_type, count, value });
        proof {
            assert(self.spec_entries().drop_last() =~= old(self).spec_entries());
        }
    }

    /// Adds an ASCII string tag: the value bytes with a final NUL.
    pub fn add_ascii_tag(&mut self, tag_name: &str, value: &str) -> (r: Result<(), String>)
        requires
            value.spec_bytes().len() < u32::MAX,
        ensures
            match spec_tag_id(tag_name@) {
                Some(id) => {
                    &&& r is Ok
                    &&& final(self).spec_entries().len() == old(self).spec_entries().len() + 1
                    &&& final(self).spec_entries().drop_last() == old(self).spec_entries()
                    &&& final(self).spec_entries().last().tag_id == id
                    &&& final(self).spec_entries().last().tag_type is Ascii
                    &&& final(self).spec_entries().last().value@ == value.spec_bytes().push(0)
                    &&& final(self).spec_entries().last().count == value.spec_bytes().push(
                        0,
                    ).len() as u32
                },
                None => {
                    &&& (r matches Err(m) && m@ == "Unknown EXIF tag: "@ + tag_name@)
                    &&& final(self).spec_entries() == old(self).spec_entries()
                },
            },
            final(self).spec_le() == old(self).spec_le(),
            final(self).spec_next_off() == old(self).spec_next_off(),
{
        let id = match get_tag_id(tag_name) {
            Some(id) => id,
            None => {
                let mut m = String::from_str("Unknown EXIF tag: ");
                m.append(tag_name);
                return Err(m);
            },
        };
        let mut bytes = value.as_bytes_vec();
        bytes.push(0);
        let count = bytes.len() as u32;
        self.push_entry(id, ExifTagType::Ascii, count, bytes);
        Ok(())
    }

    /// Adds a 16-bit integer tag in the writer's byte order.
    pub fn add_short_tag(&mut self, tag_name: &str, value: u16) -> (r: Result<(), String>)
        ensures
            match spec_tag_id(tag_name@) {
                Some(id) => {
                    &&& r is Ok
                    &&& final(self).spec_entries().len() == old(self).spec_entries().len() + 1
                    &&& final(self).spec_entries().drop_last() == old(self).spec_entries()
                    &&& final(self).spec_entries().last().tag_id == id
                    &&& final(self).spec_entries().last().tag_type is Short
                    &&& final(self).spec_entries().last().value@ == u16_bytes(
                        value,
                        old(self).spec_le(),
                    )
                    &&& final(self).spec_entries().last().count == 1u32
                },
                None => {
                    &&& (r matches Err(m) && m@ == "Unknown EXIF tag: "@ + tag_name@)
                    &&& final(self).spec_entries() == old(self).spec_entries()
                },
            },
            final(self).spec_le() == old(self).spec_le(),
            final(self).spec_next_off() == old(self).spec_next_off(),
    {
        let id = match get_tag_id(tag_name) {
            Some(id) => id,
            None => {
                let mut m = String::from_str("Unknown EXIF tag: ");
                m.append(tag_name);
                return Err(m);
            },
        };
        let mut bytes: Vec<u8> = Vec::new();
        push_u16(&mut bytes, value, self.is_little_endian);
        self.push_entry(id, ExifTagType::Short, 1, bytes);
        Ok(())
    }

    /// Adds a 32-bit integer tag in the writer's byte order.
    pub fn add_long_tag(&mut self, tag_name: &str, value: u32) -> (r: Result<(), String>)
        ensures
            match spec_tag_id(tag_name@) {
                Some(id) => {
                    &&& r is Ok
                    &&& final(self).spec_entries().len() == old(self).spec_entries().len() + 1
                    &&& final(self).spec_entries().drop_last() == old(self).spec_entries()
                    &&& final(self).spec_entries().last().tag_id == id
                    &&& final(self).spec_entries().last().tag_type is Long
                    &&& final(self).spec_entries().last().value@ == u32_bytes(
                        value,
                        old(self).spec_le(),
                    )
                    &&& final(self).spec_entries().last().count == 1u32
                },
                None => {
                    &&& (r matches Err(m) && m@ == "Unknown EXIF tag: "@ + tag_name@)
                    &&& final(self).spec_entries() == old(self).spec_entries()
                },
            },
            final(self).spec_le() == old(self).spec_le(),
            final(self).spec_next_off() == old(self).spec_next_off(),
    {
        let id = match get_tag_id(tag_name) {
            Some(id) => id,
            None => {
                let mut m = String::from_str("Unknown EXIF tag: ");
                m.append(tag_name);
                return Err(m);
            },
        };
        let mut bytes: Vec<u8> = Vec::new();
        push_u32(&mut bytes, value, self.is_little_endian);
        self.push_entry(id, ExifTagType::Long, 1, bytes);
        Ok(())
    }

    /// Adds a timestamp tag in the EXIF `YYYY:MM:DD HH:MM:SS` text form.
    pub fn add_timestamp(&mut self, tag_name: &str, timestamp: &CaptureTimestamp) -> (r: Result<
        (),
        String,
    >)
        requires
            timestamp.valid(),
        ensures
            match spec_tag_id(tag_name@) {
                Some(id) => {
                    &&& r is Ok
                    &&& final(self).spec_entries().len() == old(self).spec_entries().len() + 1
                    &&& final(self).spec_entries().drop_last() == old(self).spec_entries()
                    &&& final(self).spec_entries().last().tag_id == id
                    &&& final(self).spec_entries().last().tag_type is Ascii
                    &&& final(self).spec_entries().last().value@ == timestamp_text_bytes(
                        *timestamp,
                    ).push(0)
                    &&& final(self).spec_entries().last().count == 20u32
                },
                None => {
                    &&& (r matches Err(m) && m@ == "Unknown EXIF tag: "@ + tag_name@)
                    &&& final(self).spec_entries() == old(self).spec_entries()
                },
            },
            final(self).spec_le() == old(self).spec_le(),
            final(self).spec_next_off() == old(self).spec_next_off(),
    {
        let id = match get_tag_id(tag_name) {
            Some(id) => id,
            None => {
                let mut m = String::from_str("Unknown EXIF tag: ");
                m.append(tag_name);
                return Err(m);
            },
        };
        let mut bytes: Vec<u8> = Vec::new();
        push_dec4_bytes(&mut bytes, timestamp.year);
        bytes.push(58);
        push_dec2_bytes(&mut bytes, timestamp.month);
        bytes.push(58);
        push_dec2_bytes(&mut bytes, timestamp.day);
        bytes.push(32);
        push_dec2_bytes(&mut bytes, timestamp.hour);
        bytes.push(58);
        push_dec2_bytes(&mut bytes, timestamp.minute);
        bytes.push(58);
        push_dec2_bytes(&mut bytes, timestamp.second);
        proof {
            assert(bytes@ =~= timestamp_text_bytes(*timestamp));
        }
        bytes.push(0);
        proof {
            assert(bytes@ =~= timestamp_text_bytes(*timestamp).push(0));
        }
        self.push_entry(id, ExifTagType::Ascii, 20, bytes);
        Ok(())
    }

    /// Writes the TIFF header.
    fn write_tiff_header(&self, data: &mut Vec<u8>)
        ensures
            final(data)@ == old(data)@ + tiff_header(self.spec_le()),
    {
        if self.is_little_endian {
            data.push(0x49);
            data.push(0x49);
        } else {
            data.push(0x4d);
            data.push(0x4d);
        }
        push_u16(data, 42, self.is_little_endian);
        push_u32(data, 8, self.is_little_endian);
        proof {
            assert(data@ =~= old(data)@ + tiff_header(self.spec_le()));
        }
    }

    /// Writes one 12-byte directory entry.
    fn write_ifd_entry(&self, data: &mut Vec<u8>, entry: &ExifTag)
        ensures
            final(data)@ == old(data)@ + ifd_entry_bytes(*entry, self.spec_le()),
    {
        push_u16(data, entry.tag_id, self.is_little_endian);
        push_u16(data, entry.tag_type.code(), self.is_little_endian);
        push_u32(data, entry.count, self.is_little_endian);
        let vl = entry.value.len();
        if vl <= 4 {
            let ghost mark = data@;
            let mut j: usize = 0;
            while j < vl
                invariant
                    vl == entry.value@.len(),
                    j <= vl,
                    data@ == mark + entry.value@.take(j as int),
                decreases vl - j,
            {
                data.push(entry.value[j]);
                proof {
                    assert(data@ =~= mark + entry.value@.take(j as int + 1));
                }
                j = j + 1;
            }
            proof {
                assert(entry.value@.take(vl as int) =~= entry.value@);
            }
            let ghost mark2 = data@;
            let mut k: usize = 0;
            while k < 4 - vl
                invariant
                    vl <= 4,
                    k <= 4 - vl,
                    data@ == mark2 + byte_zeros(k as int),
                decreases 4 - vl - k,
            {
                data.push(0);
                proof {
                    assert(data@ =~= mark2 + byte_zeros(k as int + 1));
                }
                k = k + 1;
            }
            proof {
                assert(data@ =~= old(data)@ + ifd_entry_bytes(*entry, self.spec_le()));
            }
        } else {
            push_u32(data, 0, self.is_little_endian);
            proof {
                assert(data@ =~= old(data)@ + ifd_entry_bytes(*entry, self.spec_le()));
            }
        }
    }

    /// Writes a whole directory: count, entries, next offset, and the
    /// out-of-line value area with its two-byte alignment.
    fn write_ifd(&self, data: &mut Vec<u8>, ifd: &ExifIfd)
        requires
            ifd.entries@.len() <= u16::MAX,
            old(data)@.len() + 6 + 12 * ifd.entries@.len() <= usize::MAX,
        ensures
            final(data)@ == old(data)@ + ifd_bytes(
                ifd.entries@,
                ifd.next_ifd_offset,
                self.spec_le(),
                old(data)@.len() as int,
            ),
    {
        let ghost start = old(data)@.len() as int;
        let n = ifd.entries.len();
        push_u16(data, n as u16, self.is_little_endian);
        let ghost after_count = data@;
        let mut i: usize = 0;
        while i < n
            invariant
                n == ifd.entries@.len(),
                i <= n,
                data@ == after_count + entries_bytes(ifd.entries@.take(i as int), self.spec_le()),
            decreases n - i,
        {
            proof {
                assert(ifd.entries@.take(i as int + 1).drop_last() =~= ifd.entries@.take(i as int));
                assert(ifd.entries@.take(i as int + 1).last() == ifd.entries@[i as int]);
            }
            self.write_ifd_entry(data, &ifd.entries[i]);
            i = i + 1;
        }
        proof {
            assert(ifd.entries@.take(n as int) =~= ifd.entries@);
        }
        push_u32(data, ifd.next_ifd_offset, self.is_little_endian);
        let ghost base = data@;
        proof {
            lemma_entries_bytes_len(ifd.entries@, self.spec_le());
            assert(base.len() == start + 2 + 12 * ifd.entries@.len() + 4);
        }
        let mut i2: usize = 0;
        while i2 < n
            invariant
                n == ifd.entries@.len(),
                i2 <= n,
                data@.len() >= base.len(),
                data@ + overflow_area(ifd.entries@.skip(i2 as int), data@.len() as int) == base
                    + overflow_area(ifd.entries@.skip(0), base.len() as int),
            decreases n - i2,
    {
            let ghost pre = data@;
            let ghost rem = ifd.entries@.skip(i2 as int);
            proof {
                assert(rem[0] == ifd.entries@[i2 as int]);
                assert(rem.drop_first() =~= ifd.entries@.skip(i2 as int + 1));
            }
            let vl2 = ifd.entries[i2].value.len();
            if vl2 > 4 {
                if data.len() % 2 != 0 {
                    data.push(0);
                    proof {
                        assert(data@ =~= pre + seq![0u8]);
                    }
                }
                let ghost mark3 = data@;
                let entry = &ifd.entries[i2];
                let mut j: usize = 0;
                while j < vl2
                    invariant
                        vl2 == entry.value@.len(),
                        entry == &ifd.entries@[i2 as int],
                        j <= vl2,
                        data@ == mark3 + entry.value@.take(j as int),
                    decreases vl2 - j,
                {
                    data.push(entry.value[j]);
                    proof {
                        assert(data@ =~= mark3 + entry.value@.take(j as int + 1));
                    }
                    j = j + 1;
                }
                proof {
                    assert(entry.value@.take(vl2 as int) =~= entry.value@);
                    let part = (if pre.len() as int % 2 == 1 {
                        seq![0u8]
                    } else {
                        Seq::<u8>::empty()
                    }) + ifd.entries@[i2 as int].value@;
                    assert(data@ =~= pre + part);
                }
            } else {
                proof {
                    assert(data@ =~= pre + Seq::<u8>::empty());
                }
            }
            i2 = i2 + 1;
        }
        proof {
            assert(ifd.entries@.skip(n as int) =~= Seq::<ExifTag>::empty());
            assert(overflow_area(ifd.entries@.skip(n as int), data@.len() as int) =~= Seq::<
                u8,
            >::empty());
            assert(data@ + Seq::<u8>::empty() =~= data@);
            assert(ifd.entries@.skip(0) =~= ifd.entries@);
            assert(data@ =~= old(data)@ + ifd_bytes(
                ifd.entries@,
                ifd.next_ifd_offset,
                self.spec_le(),
                start,
            ));
        }
    }

    /// Renders the collected tags as a complete TIFF byte structure.
    pub fn to_bytes(&self) -> (r: Result<Vec<u8>, String>)
        requires
            self.spec_entries().len() <= u16::MAX,
            14 + 12 * self.spec_entries().len() <= usize::MAX,
        ensures
            r matches Ok(b) && b@ == tiff_header(self.spec_le()) + ifd_bytes(
                self.spec_entries(),
                self.spec_next_off(),
                self.spec_le(),
                8,
            ),
    {
        let mut data: Vec<u8> = Vec::new();
        self.write_tiff_header(&mut data);
        proof {
            assert(data@.len() == 8);
        }
        self.write_ifd(&mut data, &self.primary_ifd);
        Ok(data)
    }
}

impl Default for ExifWriter {
    fn default() -> (r: ExifWriter)
        ensures
            r.spec_entries() == Seq::<ExifTag>::empty(),
            r.spec_le(),
            r.spec_next_off() == 0,
    {
        ExifWriter::new()
    }
}


/// The `Exif\0\0` identifier that opens an APP1 payload.
pub open spec fn exif_ident_bytes() -> Seq<u8> {
    seq![0x45u8, 0x78u8, 0x69u8, 0x66u8, 0u8, 0u8]
}

/// A complete APP1 segment around a TIFF payload: marker, big-endian
/// segment length, identifier, payload.
pub open spec fn app1_segment_bytes(payload: Seq<u8>) -> Seq<u8> {
    let l = payload.len() + 8;
    seq![0xffu8, 0xe1u8, (l / 256) as u8, (l % 256) as u8] + exif_ident_bytes() + payload
}

/// Builds the APP1 segment holding `exif_data`; a payload whose segment
/// would not fit the two-byte length field is refused.
pub fn create_app1_segment(exif_data: &Vec<u8>) -> (r: Result<Vec<u8>, String>)
    ensures
        exif_data@.len() + 8 > 65535 ==> (r matches Err(m) && m@
            == "EXIF data too large for JPEG APP1 segment"@),
        exif_data@.len() + 8 <= 65535 ==> (r matches Ok(b) && b@ == app1_segment_bytes(
            exif_data@,
        )),
{
    let n = exif_data.len();
    if n > 65527 {
        return Err(String::from_str("EXIF data too large for JPEG APP1 segment"));
    }
    let l = n + 8;
    let mut seg: Vec<u8> = Vec::new();
    seg.push(0xff);
    seg.push(0xe1);
    seg.push((l / 256) as u8);
    seg.push((l % 256) as u8);
    seg.push(0x45);
    seg.push(0x78);
    seg.push(0x69);
    seg.push(0x66);
    seg.push(0);
    seg.push(0);
    let ghost mark = seg@;
    let mut j: usize = 0;
    while j < n
        invariant
            n == exif_data@.len(),
            j <= n,
            seg@ == mark + exif_data@.take(j as int),
        decreases n - j,
    {
        seg.push(exif_data[j]);
        proof {
            assert(seg@ =~= mark + exif_data@.take(j as int + 1));
        }
        j = j + 1;
    }
    proof {
        assert(exif_data@.take(n as int) =~= exif_data@);
        assert(seg@ =~= app1_segment_bytes(exif_data@));
    }
    Ok(seg)
}

/// The marker walk over a JPEG byte stream, from offset `i` with the
/// insertion point and removal range found so far: a start-of-image
/// marker fixes the insertion point right after itself; an existing
/// APP1 segment with a readable length is recorded for removal and
/// stepped over; an end-of-image marker stops the walk; any other
/// marker with a readable length is stepped over; everything else
/// advances one byte.
pub open spec fn scan_app1(
    data: Seq<u8>,
    i: int,
    ins: Option<int>,
    rs: Option<int>,
    re: Option<int>,
) -> (Option<int>, Option<int>, Option<int>)
    decreases (if i <= data.len() { data.len() - i } else { 0 }),
{
    if i < 0 || i + 1 >= data.len() {
        (ins, rs, re)
    } else if data[i] == 0xff {
        if data[i + 1] == 0xd8 {
            scan_app1(data, i + 2, Some(i + 2), rs, re)
        } else if data[i + 1] == 0xe1 {
            if i + 3 < data.len() {
                let length = (data[i + 2] as int) * 256 + (data[i + 3] as int);
                scan_app1(data, i + 2 + length, ins, Some(i), Some(i + 2 + length))
            } else {
                scan_app1(data, i + 1, ins, rs, re)
            }
        } else if data[i + 1] == 0xd9 {
            (ins, rs, re)
        } else {
            if i + 3 < data.len() {
                let length = (data[i + 2] as int) * 256 + (data[i + 3] as int);
                scan_app1(data, i + 2 + length, ins, rs, re)
            } else {
                scan_app1(data, i + 1, ins, rs, re)
            }
        }
    } else {
        scan_app1(data, i + 1, ins, rs, re)
    }
}

/// What the scan of a whole stream yields.
pub open spec fn scan_app1_full(data: Seq<u8>) -> (Option<int>, Option<int>, Option<int>) {
    scan_app1(data, 0, None, None, None)
}

/// `data` with the recorded removal range taken out.
pub open spec fn app1_removed(data: Seq<u8>) -> Seq<u8> {
    let (ins, rs, re) = scan_app1_full(data);
    match (rs, re) {
        (Some(s), Some(e)) => data.take(s) + data.skip(e),
        _ => data,
    }
}

/// The insertion offset in the cleaned stream: the point after the
/// start-of-image marker, shifted left when a removal preceded it.
pub open spec fn app1_adjusted_pos(data: Seq<u8>) -> int {
    let (ins, rs, re) = scan_app1_full(data);
    let pos = ins.unwrap();
    match (rs, re) {
        (Some(s), Some(e)) => if pos > s {
            pos - (e - s)
        } else {
            pos
        },
        _ => pos,
    }
}

/// The scan's removal range and insertion point index real positions.
pub open spec fn scan_app1_wf(data: Seq<u8>) -> bool {
    let (ins, rs, re) = scan_app1_full(data);
    &&& (rs is Some <==> re is Some)
    &&& match (rs, re) {
        (Some(st), Some(en)) => 0 <= st <= en <= data.len(),
        _ => true,
    }
    &&& ins is Some ==> {
        let adj = app1_adjusted_pos(data);
        0 <= adj <= app1_removed(data).len()
    }
}


/// The view of an optional index.
pub open spec fn opt_int(o: Option<usize>) -> Option<int> {
    match o {
        Some(v) => Some(v as int),
        None => None,
    }
}

/// Appends `src[from..to]` to `dst`.
fn extend_from_range(dst: &mut Vec<u8>, src: &Vec<u8>, from: usize, to: usize)
    requires
        from <= to,
        to <= src@.len(),
    ensures
        final(dst)@ == old(dst)@ + src@.subrange(from as int, to as int),
{
    let ghost mark = dst@;
    let mut j: usize = from;
    while j < to
        invariant
            from <= j <= to,
            to <= src@.len(),
            dst@ == mark + src@.subrange(from as int, j as int),
        decreases to - j,
    {
        dst.push(src[j]);
        proof {
            assert(dst@ =~= mark + src@.subrange(from as int, j as int + 1));
        }
        j = j + 1;
    }
    proof {
        assert(src@.subrange(from as int, from as int) =~= Seq::<u8>::empty());
        assert(mark + src@.subrange(from as int, from as int) =~= mark);
    }
}

/// Replaces any existing APP1 segment in a JPEG byte stream and plants
/// `app1_segment` right after the start-of-image marker.  Without such
/// a marker the stream is still cleaned of the recorded segment and the
/// missing marker is reported; a segment table that would index outside
/// the data leaves the stream unchanged and is reported.
pub fn insert_app1_segment(jpeg_data: &mut Vec<u8>, app1_segment: &Vec<u8>) -> (r: Result<
    (),
    String,
>)
    requires
        old(jpeg_data)@.len() + app1_segment@.len() <= usize::MAX,
    ensures
        !scan_app1_wf(old(jpeg_data)@) ==> {
            &&& final(jpeg_data)@ == old(jpeg_data)@
            &&& (r matches Err(m) && m@ == "Invalid JPEG file: malformed segment table"@)
        },
        scan_app1_wf(old(jpeg_data)@) && scan_app1_full(old(jpeg_data)@).0 is None ==> {
            &&& final(jpeg_data)@ == app1_removed(old(jpeg_data)@)
            &&& (r matches Err(m) && m@ == "Invalid JPEG file: SOI marker not found"@)
        },
        scan_app1_wf(old(jpeg_data)@) && scan_app1_full(old(jpeg_data)@).0 is Some ==> {
            let cleaned = app1_removed(old(jpeg_data)@);
            let adj = app1_adjusted_pos(old(jpeg_data)@);
            &&& r is Ok
            &&& final(jpeg_data)@ == cleaned.take(adj) + app1_segment@ + cleaned.skip(adj)
        },
{
    let ghost data = jpeg_data@;
    let ghost target = scan_app1_full(data);
    let n = jpeg_data.len();
    let mut i: usize = 0;
    let mut ins: Option<usize> = None;
    let mut rs: Option<usize> = None;
    let mut re_end: Option<usize> = None;
    while n >= 2 && i < n - 1
        invariant
            n == jpeg_data@.len(),
            jpeg_data@ == data,
            data == old(jpeg_data)@,
            data.len() + app1_segment@.len() <= usize::MAX,
            target == scan_app1_full(data),
            i <= n,
            scan_app1(data, i as int, opt_int(ins), opt_int(rs), opt_int(re_end)) == target,
            match (rs, re_end) {
                (Some(s), Some(e)) => s <= e <= n,
                (None, None) => true,
                _ => false,
            },
        decreases n - i,
    {
        let b0 = jpeg_data[i];
        let b1 = jpeg_data[i + 1];
        if b0 == 0xff {
            if b1 == 0xd8 {
                ins = Some(i + 2);
                i = i + 2;
            } else if b1 == 0xe1 {
                if n - i > 3 {
                    let length = (jpeg_data[i + 2] as usize) * 256 + (jpeg_data[i + 3] as usize);
                    let avail = n - (i + 2);
                    if length <= avail {
                        rs = Some(i);
                        re_end = Some(i + 2 + length);
                        i = i + 2 + length;
                    } else {
                        proof {
                            let big = i + 2 + length as int;
                            assert(big > n);
                            assert(scan_app1(data, big, opt_int(ins), Some(i as int), Some(big))
                                == (opt_int(ins), Some(i as int), Some(big)));
                            assert(target == (opt_int(ins), Some(i as int), Some(big)));
                            assert(!scan_app1_wf(data));
                        }
                        return Err(String::from_str("Invalid JPEG file: malformed segment table"));
                    }
                } else {
                    i = i + 1;
                }
            } else if b1 == 0xd9 {
                proof {
                    assert(scan_app1(data, i as int, opt_int(ins), opt_int(rs), opt_int(re_end))
                        == (opt_int(ins), opt_int(rs), opt_int(re_end)));
                    assert(scan_app1(data, n as int, opt_int(ins), opt_int(rs), opt_int(re_end))
                        == (opt_int(ins), opt_int(rs), opt_int(re_end)));
                }
                i = n;
            } else {
                if n - i > 3 {
                    let length = (jpeg_data[i + 2] as usize) * 256 + (jpeg_data[i + 3] as usize);
                    let avail = n - (i + 2);
                    if length <= avail {
                        i = i + 2 + length;
                    } else {
                        proof {
                            let big = i + 2 + length as int;
                            assert(big > n);
                            assert(scan_app1(data, big, opt_int(ins), opt_int(rs), opt_int(re_end))
                                == (opt_int(ins), opt_int(rs), opt_int(re_end)));
                            assert(scan_app1(data, n as int, opt_int(ins), opt_int(rs), opt_int(re_end))
                                == (opt_int(ins), opt_int(rs), opt_int(re_end)));
                        }
                        i = n;
                    }
                } else {
                    i = i + 1;
                }
            }
        } else {
            i = i + 1;
        }
    }
    proof {
        assert(scan_app1(data, i as int, opt_int(ins), opt_int(rs), opt_int(re_end)) == (
            opt_int(ins),
            opt_int(rs),
            opt_int(re_end),
        ));
        assert(target == (opt_int(ins), opt_int(rs), opt_int(re_end)));
    }
    // take the recorded segment out
    let mut cleaned: Vec<u8> = Vec::new();
    let removed_width: usize;
    let rs_val: usize;
    match (rs, re_end) {
        (Some(s), Some(e)) => {
            extend_from_range(&mut cleaned, jpeg_data, 0, s);
            extend_from_range(&mut cleaned, jpeg_data, e, n);
            removed_width = e - s;
            rs_val = s;
            proof {
                assert(cleaned@ =~= app1_removed(data));
            }
        },
        _ => {
            extend_from_range(&mut cleaned, jpeg_data, 0, n);
            removed_width = 0;
            rs_val = 0;
            proof {
                assert(data.subrange(0, n as int) =~= data);
                assert(cleaned@ =~= app1_removed(data));
            }
        },
    }
    // plant the new segment after the start-of-image marker
    match ins {
        None => {
            *jpeg_data = cleaned;
            Err(String::from_str("Invalid JPEG file: SOI marker not found"))
        },
        Some(pos) => {
            let adj: usize;
            if rs.is_some() && pos > rs_val {
                if pos < removed_width {
                    proof {
                        assert(!scan_app1_wf(data));
                    }
                    return Err(String::from_str("Invalid JPEG file: malformed segment table"));
                }
                adj = pos - removed_width;
            } else {
                adj = pos;
            }
            proof {
                assert(adj as int == app1_adjusted_pos(data));
            }
            if adj > cleaned.len() {
                proof {
                    assert(!scan_app1_wf(data));
                }
                return Err(String::from_str("Invalid JPEG file: malformed segment table"));
            }
            proof {
                assert(scan_app1_wf(data));
            }
            let mut out: Vec<u8> = Vec::new();
            extend_from_range(&mut out, &cleaned, 0, adj);
            extend_from_range(&mut out, app1_segment, 0, app1_segment.len());
            let cl = cleaned.len();
            extend_from_range(&mut out, &cleaned, adj, cl);
            proof {
                assert(app1_segment@.subrange(0, app1_segment@.len() as int) =~= app1_segment@);
                assert(out@ =~= app1_removed(data).take(app1_adjusted_pos(data)) + app1_segment@
                    + app1_removed(data).skip(app1_adjusted_pos(data)));
            }
            *jpeg_data = out;
            Ok(())
        },
    }
}

} // verus!
