//! The data model of the TIFF-like raw-camera container: the container
//! header, its chain of image file directories (IFDs), the directory
//! entries with their tag metadata, and the embedded image data block.
//! The reader that walks a file into these structures is an external
//! collaborator; the model itself and its lookups are verified here.

use vstd::prelude::*;

verus! {

/// TIFF tag id for the height of an image.
pub const IMAGE_HEIGHT: u16 = 48257;

/// TIFF tag id for the width of an image.
pub const IMAGE_WIDTH: u16 = 48256;

/// TIFF tag id for the offset of image data within the file.
pub const IMAGE_DATA_OFFSET: u16 = 273;

/// A parsed raw-camera container: the byte-order mark, the format magic
/// number, the offsets into the directory chain, the embedded format word
/// and version, and the directories themselves.
pub struct CR2Image {
    pub endianness: [u8; 2],
    pub magic_number: u16,
    pub offset_to_first_ifd: u32,
    pub cr2_magic_word: String,
    pub cr2_major_version: u8,
    pub cr2_minor_version: u8,
    pub raw_ifd_offset: u32,
    pub images: Vec<ImageFileDirectory>,
}

impl CR2Image {
    /// A container with the given header fields and no directories yet.
    pub fn new(
        endian: [u8; 2],
        magic_number: u16,
        first_ifd_offset: u32,
        cr2_magic_word: String,
        cr2_major_version: u8,
        cr2_minor_version: u8,
        raw_ifd_offset: u32,
    ) -> (r: CR2Image)
        ensures
            r.endianness@ == endian@,
            r.magic_number == magic_number,
            r.offset_to_first_ifd == first_ifd_offset,
            r.cr2_magic_word@ == cr2_magic_word@,
            r.cr2_major_version == cr2_major_version,
            r.cr2_minor_version == cr2_minor_version,
            r.raw_ifd_offset == raw_ifd_offset,
            r.images@.len() == 0,
    {
        CR2Image {
            endianness: endian,
            magic_number,
            offset_to_first_ifd: first_ifd_offset,
            cr2_magic_word,
            cr2_major_version,
            cr2_minor_version,
            raw_ifd_offset,
            images: Vec::new(),
        }
    }
}

/// The value recorded by the first entry carrying `entry_id`, if any: the
/// lookup every directory query goes through.
pub open spec fn spec_entry_value(entries: Seq<IFDEntry>, entry_id: u16) -> Option<u32>
    decreases entries.len(),
{
    if entries.len() == 0 {
        None
    } else if entries[0].tag_id == entry_id {
        Some(entries[0].tag_value)
    } else {
        spec_entry_value(entries.drop_first(), entry_id)
    }
}

/// One image file directory: its position in the container and its entries,
/// plus the image data block it points at.
pub struct ImageFileDirectory {
    pub ifd_offset: u64,
    pub entries: Vec<IFDEntry>,
    pub data: ImageData,
}

impl ImageFileDirectory {
    /// An empty directory recorded at the given file offset.
    pub fn new(offset: u64) -> (r: ImageFileDirectory)
        ensures
            r.ifd_offset == offset,
            r.entries@.len() == 0,
            r.data.data@.len() == 0,
    {
        ImageFileDirectory { ifd_offset: offset, entries: Vec::new(), data: ImageData::new() }
    }

    /// Where the directory says its image data starts, widened to a file
    /// offset.
    pub fn get_offset_to_image_data(&self) -> (r: Option<u64>)
        ensures
            r matches Some(v) ==> spec_entry_value(self.entries@, IMAGE_DATA_OFFSET)
                == Some((v as u32)) && v <= u32::MAX,
            r is None <==> spec_entry_value(self.entries@, IMAGE_DATA_OFFSET) is None,
    {
        let mut value: Option<u64> = None;
        if let Some(data_offset) = self.get_entry_value(IMAGE_DATA_OFFSET) {
            value = Some(data_offset as u64)
        }
        value
    }

    /// The image height the directory declares, if any.
    pub fn get_image_height(&self) -> (r: Option<u32>)
        ensures
            r == spec_entry_value(self.entries@, IMAGE_HEIGHT),
    {
        self.get_entry_value(IMAGE_HEIGHT)
    }

    /// The image width the directory declares, if any.
    pub fn get_image_width(&self) -> (r: Option<u32>)
        ensures
            r == spec_entry_value(self.entries@, IMAGE_WIDTH),
    {
        self.get_entry_value(IMAGE_WIDTH)
    }

    /// The value of the first entry with the given tag id, if any.
    pub fn get_entry_value(&self, entry_id: u16) -> (r: Option<u32>)
        ensures
            r == spec_entry_value(self.entries@, entry_id),
    {
        let n = self.entries.len();
        proof {
            assert(self.entries@.subrange(0, n as int) =~= self.entries@);
        }
        let mut i: usize = 0;
        while i < n
            invariant
                i <= n,
                n == self.entries@.len(),
                spec_entry_value(self.entries@, entry_id) == spec_entry_value(
                    self.entries@.subrange(i as int, n as int),
                    entry_id,
                ),
            decreases n - i,
        {
            proof {
                let rest = self.entries@.subrange(i as int, n as int);
                assert(rest[0] == self.entries@[i as int]);
                assert(rest.drop_first() =~= self.entries@.subrange(i as int + 1, n as int));
            }
            if self.entries[i].tag_id == entry_id {
                return Some(self.entries[i].tag_value);
            }
            i = i + 1;
        }
        proof {
            assert(self.entries@.subrange(n as int, n as int).len() == 0);
        }
        None
    }
}

/// A define-Huffman-table header block lifted out of the embedded image
/// stream.
pub struct DHTHeader {
    pub data: Vec<u8>,
}

/// The raw bytes of one embedded image.
pub struct ImageData {
    pub data: Vec<u8>,
}

impl ImageData {
    /// Wraps an already-read byte block.
    pub fn from_data(data: Vec<u8>) -> (r: ImageData)
        ensures
            r.data@ == data@,
    {
        ImageData { data }
    }

    /// An empty block.
    pub fn new() -> (r: ImageData)
        ensures
            r.data@.len() == 0,
    {
        ImageData { data: Vec::new() }
    }
}

/// The character for one decimal digit.
pub open spec fn dec_digit(d: int) -> char {
    if d == 0 {
        '0'
    } else if d == 1 {
        '1'
    } else if d == 2 {
        '2'
    } else if d == 3 {
        '3'
    } else if d == 4 {
        '4'
    } else if d == 5 {
        '5'
    } else if d == 6 {
        '6'
    } else if d == 7 {
        '7'
    } else if d == 8 {
        '8'
    } else {
        '9'
    }
}

/// The decimal rendering of a nonnegative value, most significant digit
/// first.
pub open spec fn dec_str(v: int) -> Seq<char>
    decreases v,
{
    if v <= 9 {
        seq![dec_digit(v)]
    } else {
        dec_str(v / 10).push(dec_digit(v % 10))
    }
}

/// One decimal digit as text.
fn digit_str(d: u32) -> (s: &'static str)
    requires
        d < 10,
    ensures
        s@ == seq![dec_digit(d as int)],
{
    proof {
        reveal_strlit("0");
        reveal_strlit("1");
        reveal_strlit("2");
        reveal_strlit("3");
        reveal_strlit("4");
        reveal_strlit("5");
        reveal_strlit("6");
        reveal_strlit("7");
        reveal_strlit("8");
        reveal_strlit("9");
    }
    let s = match d {
        0 => "0",
        1 => "1",
        2 => "2",
        3 => "3",
        4 => "4",
        5 => "5",
        6 => "6",
        7 => "7",
        8 => "8",
        _ => "9",
    };
    proof {
        assert(s@ =~= seq![dec_digit(d as int)]);
    }
    s
}

/// Renders a value in decimal, most significant digit first.
pub fn u32_decimal(v: u32) -> (s: String)
    ensures
        s@ == dec_str(v as int),
    decreases v,
{
    if v <= 9 {
        String::from_str(digit_str(v))
    } else {
        let mut s = u32_decimal(v / 10);
        s.append(digit_str(v % 10));
        proof {
            assert(s@ =~= dec_str((v / 10) as int).push(dec_digit((v % 10) as int)));
        }
        s
    }
}

/// One directory entry: a tag id, the type of its payload, how many values
/// it carries, and the value (or offset to the value), along with a textual
/// rendering of the value.
pub struct IFDEntry {
    pub tag_id: u16,
    pub tag_type: u16,
    pub tag_count: u32,
    pub tag_value: u32,
    pub tag_string: String,
}

impl IFDEntry {
    /// An entry with the given fields; the textual rendering starts out as
    /// the decimal rendering of the value.
    pub fn new(tag_id: u16, tag_type: u16, tag_count: u32, tag_value: u32) -> (r: IFDEntry)
        ensures
            r.tag_id == tag_id,
            r.tag_type == tag_type,
            r.tag_count == tag_count,
            r.tag_value == tag_value,
            r.tag_string@ == dec_str(tag_value as int),
    {
        IFDEntry { tag_id, tag_type, tag_count, tag_value, tag_string: u32_decimal(tag_value) }
    }

    /// The human-readable name of this entry's tag.
    pub fn entry_label(&self) -> (r: &'static str)
        ensures
            r@ == tiff_label(self.tag_id),
    {
        get_tiff_label(self.tag_id)
    }

    /// The human-readable name of this entry's payload type.
    pub fn tag_type_name(&self) -> (r: &'static str)
        ensures
            r@ == tiff_type_name(self.tag_type),
    {
        match self.tag_type {
            1 => "ubyte, unsigned 8bits",
            2 => "string, ASCII, 0 terminated",
            3 => "ushort, unsigned 16 bits",
            4 => "ulong, unsigned 32 bits",
            5 => "urational, numerator & denominator ulongs",
            6 => "byte, signed 8 bits",
            7 => "ubyte sequence",
            8 => "short, signed 16 bits",
            9 => "long, signed 32 bits",
            10 => "rational, signed 2 longs",
            11 => "single precision (2 bytes) IEEE format",
            12 => "double precision (4 bytes) IEEE format",
            _ => "unknown type",
        }
    }
}

/// The name of a TIFF payload type code.
pub open spec fn tiff_type_name(t: u16) -> Seq<char> {
    match t {
        1u16 => "ubyte, unsigned 8bits"@,
        2u16 => "string, ASCII, 0 terminated"@,
        3u16 => "ushort, unsigned 16 bits"@,
        4u16 => "ulong, unsigned 32 bits"@,
        5u16 => "urational, numerator & denominator ulongs"@,
        6u16 => "byte, signed 8 bits"@,
        7u16 => "ubyte sequence"@,
        8u16 => "short, signed 16 bits"@,
        9u16 => "long, signed 32 bits"@,
        10u16 => "rational, signed 2 longs"@,
        11u16 => "single precision (2 bytes) IEEE format"@,
        12u16 => "double precision (4 bytes) IEEE format"@,
        _ => "unknown type"@,
    }
}

/// The registered name of a TIFF tag id.
pub open spec fn tiff_label(number: u16) -> Seq<char> {
    match number {
        254u16 => "NewSubfileType"@,
        255u16 => "SubfileType"@,
        256u16 => "ImageWidth"@,
        257u16 => "ImageLength"@,
        258u16 => "BitsPerSample"@,
        259u16 => "Compression"@,
        262u16 => "PhotometricInterpretation"@,
        263u16 => "Threshholding"@,
        264u16 => "CellWidth"@,
        265u16 => "CellLength"@,
        266u16 => "FillOrder"@,
        269u16 => "DocumentName"@,
        270u16 => "ImageDescription"@,
        271u16 => "Make"@,
        272u16 => "Model"@,
        273u16 => "StripOffsets"@,
        274u16 => "Orientation"@,
        277u16 => "SamplesPerPixel"@,
        278u16 => "RowsPerStrip"@,
        279u16 => "StripByteCounts"@,
        280u16 => "MinSampleValue"@,
        281u16 => "MaxSampleValue"@,
        282u16 => "XResolution"@,
        283u16 => "YResolution"@,
        284u16 => "PlanarConfiguration"@,
        285u16 => "PageName"@,
        286u16 => "XPosition"@,
        287u16 => "YPosition"@,
        288u16 => "FreeOffsets"@,
        289u16 => "FreeByteCounts"@,
        290u16 => "GrayResponseUnit"@,
        291u16 => "GrayResponseCurve"@,
        292u16 => "T4Options"@,
        293u16 => "T6Options"@,
        296u16 => "ResolutionUnit"@,
        297u16 => "PageNumber"@,
        301u16 => "TransferFunction"@,
        305u16 => "Software"@,
        306u16 => "DateTime"@,
        315u16 => "Artist"@,
        316u16 => "HostComputer"@,
        317u16 => "Predictor"@,
        318u16 => "WhitePoint"@,
        319u16 => "PrimaryChromaticities"@,
        320u16 => "ColorMap"@,
        321u16 => "HalftoneHints"@,
        322u16 => "TileWidth"@,
        323u16 => "TileLength"@,
        324u16 => "TileOffsets"@,
        325u16 => "TileByteCounts"@,
        326u16 => "BadFaxLines"@,
        327u16 => "CleanFaxData"@,
        328u16 => "ConsecutiveBadFaxLines"@,
        330u16 => "SubIFDs"@,
        332u16 => "InkSet"@,
        333u16 => "InkNames"@,
        334u16 => "NumberOfInks"@,
        336u16 => "DotRange"@,
        337u16 => "TargetPrinter"@,
        338u16 => "ExtraSamples"@,
        339u16 => "SampleFormat"@,
        340u16 => "SMinSampleValue"@,
        341u16 => "SMaxSampleValue"@,
        342u16 => "TransferRange"@,
        343u16 => "ClipPath"@,
        344u16 => "XClipPathUnits"@,
        345u16 => "YClipPathUnits"@,
        346u16 => "Indexed"@,
        347u16 => "JPEGTables"@,
        351u16 => "OPIProxy"@,
        400u16 => "GlobalParametersIFD"@,
        401u16 => "ProfileType"@,
        402u16 => "FaxProfile"@,
        403u16 => "CodingMethods"@,
        404u16 => "VersionYear"@,
        405u16 => "ModeNumber"@,
        433u16 => "Decode"@,
        434u16 => "DefaultImageColor"@,
        512u16 => "JPEGProc"@,
        513u16 => "ThumbnailOffset"@,
        514u16 => "ThumbnailLength"@,
        515u16 => "JPEGRestartInterval"@,
        517u16 => "JPEGLosslessPredictors"@,
        518u16 => "JPEGPointTransforms"@,
        519u16 => "JPEGQTables"@,
        520u16 => "JPEGDCTables"@,
        521u16 => "JPEGACTables"@,
        529u16 => "YCbCrCoefficients"@,
        530u16 => "YCbCrSubSampling"@,
        531u16 => "YCbCrPositioning"@,
        532u16 => "ReferenceBlackWhite"@,
        559u16 => "StripRowCounts"@,
        700u16 => "XMP"@,
        18246u16 => "Image.Rating"@,
        18249u16 => "Image.RatingPercent"@,
        32781u16 => "ImageID"@,
        32932u16 => "Wang Annotation"@,
        33421u16 => "CFARepeatPatternDim"@,
        33422u16 => "CFAPattern"@,
        33423u16 => "BatteryLevel"@,
        33432u16 => "Copyright"@,
        33434u16 => "ExposureTime"@,
        33437u16 => "FNumber"@,
        33445u16 => "MD FileTag"@,
        33446u16 => "MD ScalePixel"@,
        33447u16 => "MD ColorTable"@,
        33448u16 => "MD LabName"@,
        33449u16 => "MD SampleInfo"@,
        33450u16 => "MD PrepDate"@,
        33451u16 => "MD PrepTime"@,
        33452u16 => "MD FileUnits"@,
        33550u16 => "ModelPixelScaleTag"@,
        33723u16 => "IPTC/NAA"@,
        33918u16 => "INGR Packet Data Tag"@,
        33919u16 => "INGR Flag Registers"@,
        33920u16 => "IrasB Transformation Matrix"@,
        33922u16 => "ModelTiepointTag"@,
        34016u16 => "Site"@,
        34017u16 => "ColorSequence"@,
        34018u16 => "IT8Header"@,
        34019u16 => "RasterPadding"@,
        34020u16 => "BitsPerRunLength"@,
        34021u16 => "BitsPerExtendedRunLength"@,
        34022u16 => "ColorTable"@,
        34023u16 => "ImageColorIndicator"@,
        34024u16 => "BackgroundColorIndicator"@,
        34025u16 => "ImageColorValue"@,
        34026u16 => "BackgroundColorValue"@,
        34027u16 => "PixelIntensityRange"@,
        34028u16 => "TransparencyIndicator"@,
        34029u16 => "ColorCharacterization"@,
        34030u16 => "HCUsage"@,
        34031u16 => "TrapIndicator"@,
        34032u16 => "CMYKEquivalent"@,
        34033u16 => "Reserved"@,
        34034u16 => "Reserved"@,
        34035u16 => "Reserved"@,
        34264u16 => "ModelTransformationTag"@,
        34377u16 => "Photoshop"@,
        34665u16 => "Exif IFD"@,
        34675u16 => "InterColorProfile"@,
        34732u16 => "ImageLayer"@,
        34735u16 => "GeoKeyDirectoryTag"@,
        34736u16 => "GeoDoubleParamsTag"@,
        34737u16 => "GeoAsciiParamsTag"@,
        34850u16 => "ExposureProgram"@,
        34852u16 => "SpectralSensitivity"@,
        34853u16 => "GPSInfo"@,
        34855u16 => "ISOSpeedRatings"@,
        34856u16 => "OECF"@,
        34857u16 => "Interlace"@,
        34858u16 => "TimeZoneOffset"@,
        34859u16 => "SelfTimeMode"@,
        34864u16 => "SensitivityType"@,
        34865u16 => "StandardOutputSensitivity"@,
        34866u16 => "RecommendedExposureIndex"@,
        34867u16 => "ISOSpeed"@,
        34868u16 => "ISOSpeedLatitudeyyy"@,
        34869u16 => "ISOSpeedLatitudezzz"@,
        34908u16 => "HylaFAX FaxRecvParams"@,
        34909u16 => "HylaFAX FaxSubAddress"@,
        34910u16 => "HylaFAX FaxRecvTime"@,
        36864u16 => "ExifVersion"@,
        36867u16 => "DateTimeOriginal"@,
        36868u16 => "DateTimeDigitized"@,
        37121u16 => "ComponentsConfiguration"@,
        37122u16 => "CompressedBitsPerPixel"@,
        37377u16 => "ShutterSpeedValue"@,
        37378u16 => "ApertureValue"@,
        37379u16 => "BrightnessValue"@,
        37380u16 => "ExposureBiasValue"@,
        37381u16 => "MaxApertureValue"@,
        37382u16 => "SubjectDistance"@,
        37383u16 => "MeteringMode"@,
        37384u16 => "LightSource"@,
        37385u16 => "Flash"@,
        37386u16 => "FocalLength"@,
        37387u16 => "FlashEnergy"@,
        37388u16 => "SpatialFrequencyResponse"@,
        37389u16 => "Noise"@,
        37390u16 => "FocalPlaneXResolution"@,
        37391u16 => "FocalPlaneYResolution"@,
        37392u16 => "FocalPlaneResolutionUnit"@,
        37393u16 => "ImageNumber"@,
        37394u16 => "SecurityClassification"@,
        37395u16 => "ImageHistory"@,
        37396u16 => "SubjectLocation"@,
        37397u16 => "ExposureIndex"@,
        37398u16 => "TIFF/EPStandardID"@,
        37399u16 => "SensingMethod"@,
        37500u16 => "MakerNote"@,
        37510u16 => "UserComment"@,
        37520u16 => "SubsecTime"@,
        37521u16 => "SubsecTimeOriginal"@,
        37522u16 => "SubsecTimeDigitized"@,
        37724u16 => "ImageSourceData"@,
        40091u16 => "XPTitle"@,
        40092u16 => "XPComment"@,
        40093u16 => "XPAuthor"@,
        40094u16 => "XPKeywords"@,
        40095u16 => "XPSubject"@,
        40960u16 => "FlashpixVersion"@,
        40961u16 => "ColorSpace"@,
        40962u16 => "PixelXDimension"@,
        40963u16 => "PixelYDimension"@,
        40964u16 => "RelatedSoundFile"@,
        40965u16 => "Interoperability IFD"@,
        41483u16 => "FlashEnergy"@,
        41484u16 => "SpatialFrequencyResponse"@,
        41486u16 => "FocalPlaneXResolution"@,
        41487u16 => "FocalPlaneYResolution"@,
        41488u16 => "FocalPlaneResolutionUnit"@,
        41492u16 => "SubjectLocation"@,
        41493u16 => "ExposureIndex"@,
        41495u16 => "SensingMethod"@,
        41728u16 => "FileSource"@,
        41729u16 => "SceneType"@,
        41730u16 => "CFAPattern"@,
        41985u16 => "CustomRendered"@,
        41986u16 => "ExposureMode"@,
        41987u16 => "WhiteBalance"@,
        41988u16 => "DigitalZoomRatio"@,
        41989u16 => "FocalLengthIn35mmFilm"@,
        41990u16 => "SceneCaptureType"@,
        41991u16 => "GainControl"@,
        41992u16 => "Contrast"@,
        41993u16 => "Saturation"@,
        41994u16 => "Sharpness"@,
        41995u16 => "DeviceSettingDescription"@,
        41996u16 => "SubjectDistanceRange"@,
        42016u16 => "ImageUniqueID"@,
        42032u16 => "CameraOwnerName"@,
        42033u16 => "BodySerialNumber"@,
        42034u16 => "LensSpecification"@,
        42035u16 => "LensMake"@,
        42036u16 => "LensModel"@,
        42037u16 => "LensSerialNumber"@,
        42112u16 => "GDAL_METADATA"@,
        42113u16 => "GDAL_NODATA"@,
        48129u16 => "PixelFormat"@,
        48130u16 => "Transformation"@,
        48131u16 => "Uncompressed"@,
        48132u16 => "ImageType"@,
        48256u16 => "ImageWidth"@,
        48257u16 => "ImageHeight"@,
        48258u16 => "WidthResolution"@,
        48259u16 => "HeightResolution"@,
        48320u16 => "ImageOffset"@,
        48321u16 => "ImageByteCount"@,
        48322u16 => "AlphaOffset"@,
        48323u16 => "AlphaByteCount"@,
        48324u16 => "ImageDataDiscard"@,
        48325u16 => "AlphaDataDiscard"@,
        50215u16 => "Oce Scanjob Description"@,
        50216u16 => "Oce Application Selector"@,
        50217u16 => "Oce Identification Number"@,
        50218u16 => "Oce ImageLogic Characteristics"@,
        50341u16 => "PrintImageMatching"@,
        50706u16 => "DNGVersion"@,
        50707u16 => "DNGBackwardVersion"@,
        50708u16 => "UniqueCameraModel"@,
        50709u16 => "LocalizedCameraModel"@,
        50710u16 => "CFAPlaneColor"@,
        50711u16 => "CFALayout"@,
        50712u16 => "LinearizationTable"@,
        50713u16 => "BlackLevelRepeatDim"@,
        50714u16 => "BlackLevel"@,
        50715u16 => "BlackLevelDeltaH"@,
        50716u16 => "BlackLevelDeltaV"@,
        50717u16 => "WhiteLevel"@,
        50718u16 => "DefaultScale"@,
        50719u16 => "DefaultCropOrigin"@,
        50720u16 => "DefaultCropSize"@,
        50721u16 => "ColorMatrix1"@,
        50722u16 => "ColorMatrix2"@,
        50723u16 => "CameraCalibration1"@,
        50724u16 => "CameraCalibration2"@,
        50725u16 => "ReductionMatrix1"@,
        50726u16 => "ReductionMatrix2"@,
        50727u16 => "AnalogBalance"@,
        50728u16 => "AsShotNeutral"@,
        50729u16 => "AsShotWhiteXY"@,
        50730u16 => "BaselineExposure"@,
        50731u16 => "BaselineNoise"@,
        50732u16 => "BaselineSharpness"@,
        50733u16 => "BayerGreenSplit"@,
        50734u16 => "LinearResponseLimit"@,
        50735u16 => "CameraSerialNumber"@,
        50736u16 => "LensInfo"@,
        50737u16 => "ChromaBlurRadius"@,
        50738u16 => "AntiAliasStrength"@,
        50739u16 => "ShadowScale"@,
        50740u16 => "DNGPrivateData"@,
        50741u16 => "MakerNoteSafety"@,
        50752u16 => "CR2Slices"@,
        50778u16 => "CalibrationIlluminant1"@,
        50779u16 => "CalibrationIlluminant2"@,
        50780u16 => "BestQualityScale"@,
        50781u16 => "RawDataUniqueID"@,
        50784u16 => "Alias Layer Metadata"@,
        50827u16 => "OriginalRawFileName"@,
        50828u16 => "OriginalRawFileData"@,
        50829u16 => "ActiveArea"@,
        50830u16 => "MaskedAreas"@,
        50831u16 => "AsShotICCProfile"@,
        50832u16 => "AsShotPreProfileMatrix"@,
        50833u16 => "CurrentICCProfile"@,
        50834u16 => "CurrentPreProfileMatrix"@,
        50879u16 => "ColorimetricReference"@,
        50931u16 => "CameraCalibrationSignature"@,
        50932u16 => "ProfileCalibrationSignature"@,
        50933u16 => "ExtraCameraProfiles"@,
        50934u16 => "AsShotProfileName"@,
        50935u16 => "NoiseReductionApplied"@,
        50936u16 => "ProfileName"@,
        50937u16 => "ProfileHueSatMapDims"@,
        50938u16 => "ProfileHueSatMapData1"@,
        50939u16 => "ProfileHueSatMapData2"@,
        50940u16 => "ProfileToneCurve"@,
        50941u16 => "ProfileEmbedPolicy"@,
        50942u16 => "ProfileCopyright"@,
        50964u16 => "ForwardMatrix1"@,
        50965u16 => "ForwardMatrix2"@,
        50966u16 => "PreviewApplicationName"@,
        50967u16 => "PreviewApplicationVersion"@,
        50968u16 => "PreviewSettingsName"@,
        50969u16 => "PreviewSettingsDigest"@,
        50970u16 => "PreviewColorSpace"@,
        50971u16 => "PreviewDateTime"@,
        50972u16 => "RawImageDigest"@,
        50973u16 => "OriginalRawFileDigest"@,
        50974u16 => "SubTileBlockSize"@,
        50975u16 => "RowInterleaveFactor"@,
        50981u16 => "ProfileLookTableDims"@,
        50982u16 => "ProfileLookTableData"@,
        51008u16 => "OpcodeList1"@,
        51009u16 => "OpcodeList2"@,
        51022u16 => "OpcodeList3"@,
        51041u16 => "NoiseProfile"@,
        51089u16 => "OriginalDefaultFinalSize"@,
        51090u16 => "OriginalBestQualityFinalSize"@,
        51091u16 => "OriginalDefaultCropSize"@,
        51107u16 => "ProfileHueSatMapEncoding"@,
        51108u16 => "ProfileLookTableEncoding"@,
        51109u16 => "BaselineExposureOffset"@,
        51110u16 => "DefaultBlackRender"@,
        51111u16 => "NewRawImageDigest"@,
        51112u16 => "RawToPreviewGain"@,
        51125u16 => "DefaultUserCrop"@,
        _ => "Unknown"@,
    }
}

/// Looks up the registered name of a TIFF tag id.
pub fn get_tiff_label(number: u16) -> (r: &'static str)
    ensures
        r@ == tiff_label(number),
{
    match number {
        254 => "NewSubfileType",
        255 => "SubfileType",
        256 => "ImageWidth",
        257 => "ImageLength",
        258 => "BitsPerSample",
        259 => "Compression",
        262 => "PhotometricInterpretation",
        263 => "Threshholding",
        264 => "CellWidth",
        265 => "CellLength",
        266 => "FillOrder",
        269 => "DocumentName",
        270 => "ImageDescription",
        271 => "Make",
        272 => "Model",
        273 => "StripOffsets",
        274 => "Orientation",
        277 => "SamplesPerPixel",
        278 => "RowsPerStrip",
        279 => "StripByteCounts",
        280 => "MinSampleValue",
        281 => "MaxSampleValue",
        282 => "XResolution",
        283 => "YResolution",
        284 => "PlanarConfiguration",
        285 => "PageName",
        286 => "XPosition",
        287 => "YPosition",
        288 => "FreeOffsets",
        289 => "FreeByteCounts",
        290 => "GrayResponseUnit",
        291 => "GrayResponseCurve",
        292 => "T4Options",
        293 => "T6Options",
        296 => "ResolutionUnit",
        297 => "PageNumber",
        301 => "TransferFunction",
        305 => "Software",
        306 => "DateTime",
        315 => "Artist",
        316 => "HostComputer",
        317 => "Predictor",
        318 => "WhitePoint",
        319 => "PrimaryChromaticities",
        320 => "ColorMap",
        321 => "HalftoneHints",
        322 => "TileWidth",
        323 => "TileLength",
        324 => "TileOffsets",
        325 => "TileByteCounts",
        326 => "BadFaxLines",
        327 => "CleanFaxData",
        328 => "ConsecutiveBadFaxLines",
        330 => "SubIFDs",
        332 => "InkSet",
        333 => "InkNames",
        334 => "NumberOfInks",
        336 => "DotRange",
        337 => "TargetPrinter",
        338 => "ExtraSamples",
        339 => "SampleFormat",
        340 => "SMinSampleValue",
        341 => "SMaxSampleValue",
        342 => "TransferRange",
        343 => "ClipPath",
        344 => "XClipPathUnits",
        345 => "YClipPathUnits",
        346 => "Indexed",
        347 => "JPEGTables",
        351 => "OPIProxy",
        400 => "GlobalParametersIFD",
        401 => "ProfileType",
        402 => "FaxProfile",
        403 => "CodingMethods",
        404 => "VersionYear",
        405 => "ModeNumber",
        433 => "Decode",
        434 => "DefaultImageColor",
        512 => "JPEGProc",
        513 => "ThumbnailOffset",
        514 => "ThumbnailLength",
        515 => "JPEGRestartInterval",
        517 => "JPEGLosslessPredictors",
        518 => "JPEGPointTransforms",
        519 => "JPEGQTables",
        520 => "JPEGDCTables",
        521 => "JPEGACTables",
        529 => "YCbCrCoefficients",
        530 => "YCbCrSubSampling",
        531 => "YCbCrPositioning",
        532 => "ReferenceBlackWhite",
        559 => "StripRowCounts",
        700 => "XMP",
        18246 => "Image.Rating",
        18249 => "Image.RatingPercent",
        32781 => "ImageID",
        32932 => "Wang Annotation",
        33421 => "CFARepeatPatternDim",
        33422 => "CFAPattern",
        33423 => "BatteryLevel",
        33432 => "Copyright",
        33434 => "ExposureTime",
        33437 => "FNumber",
        33445 => "MD FileTag",
        33446 => "MD ScalePixel",
        33447 => "MD ColorTable",
        33448 => "MD LabName",
        33449 => "MD SampleInfo",
        33450 => "MD PrepDate",
        33451 => "MD PrepTime",
        33452 => "MD FileUnits",
        33550 => "ModelPixelScaleTag",
        33723 => "IPTC/NAA",
        33918 => "INGR Packet Data Tag",
        33919 => "INGR Flag Registers",
        33920 => "IrasB Transformation Matrix",
        33922 => "ModelTiepointTag",
        34016 => "Site",
        34017 => "ColorSequence",
        34018 => "IT8Header",
        34019 => "RasterPadding",
        34020 => "BitsPerRunLength",
        34021 => "BitsPerExtendedRunLength",
        34022 => "ColorTable",
        34023 => "ImageColorIndicator",
        34024 => "BackgroundColorIndicator",
        34025 => "ImageColorValue",
        34026 => "BackgroundColorValue",
        34027 => "PixelIntensityRange",
        34028 => "TransparencyIndicator",
        34029 => "ColorCharacterization",
        34030 => "HCUsage",
        34031 => "TrapIndicator",
        34032 => "CMYKEquivalent",
        34033 => "Reserved",
        34034 => "Reserved",
        34035 => "Reserved",
        34264 => "ModelTransformationTag",
        34377 => "Photoshop",
        34665 => "Exif IFD",
        34675 => "InterColorProfile",
        34732 => "ImageLayer",
        34735 => "GeoKeyDirectoryTag",
        34736 => "GeoDoubleParamsTag",
        34737 => "GeoAsciiParamsTag",
        34850 => "ExposureProgram",
        34852 => "SpectralSensitivity",
        34853 => "GPSInfo",
        34855 => "ISOSpeedRatings",
        34856 => "OECF",
        34857 => "Interlace",
        34858 => "TimeZoneOffset",
        34859 => "SelfTimeMode",
        34864 => "SensitivityType",
        34865 => "StandardOutputSensitivity",
        34866 => "RecommendedExposureIndex",
        34867 => "ISOSpeed",
        34868 => "ISOSpeedLatitudeyyy",
        34869 => "ISOSpeedLatitudezzz",
        34908 => "HylaFAX FaxRecvParams",
        34909 => "HylaFAX FaxSubAddress",
        34910 => "HylaFAX FaxRecvTime",
        36864 => "ExifVersion",
        36867 => "DateTimeOriginal",
        36868 => "DateTimeDigitized",
        37121 => "ComponentsConfiguration",
        37122 => "CompressedBitsPerPixel",
        37377 => "ShutterSpeedValue",
        37378 => "ApertureValue",
        37379 => "BrightnessValue",
        37380 => "ExposureBiasValue",
        37381 => "MaxApertureValue",
        37382 => "SubjectDistance",
        37383 => "MeteringMode",
        37384 => "LightSource",
        37385 => "Flash",
        37386 => "FocalLength",
        37387 => "FlashEnergy",
        37388 => "SpatialFrequencyResponse",
        37389 => "Noise",
        37390 => "FocalPlaneXResolution",
        37391 => "FocalPlaneYResolution",
        37392 => "FocalPlaneResolutionUnit",
        37393 => "ImageNumber",
        37394 => "SecurityClassification",
        37395 => "ImageHistory",
        37396 => "SubjectLocation",
        37397 => "ExposureIndex",
        37398 => "TIFF/EPStandardID",
        37399 => "SensingMethod",
        37500 => "MakerNote",
        37510 => "UserComment",
        37520 => "SubsecTime",
        37521 => "SubsecTimeOriginal",
        37522 => "SubsecTimeDigitized",
        37724 => "ImageSourceData",
        40091 => "XPTitle",
        40092 => "XPComment",
        40093 => "XPAuthor",
        40094 => "XPKeywords",
        40095 => "XPSubject",
        40960 => "FlashpixVersion",
        40961 => "ColorSpace",
        40962 => "PixelXDimension",
        40963 => "PixelYDimension",
        40964 => "RelatedSoundFile",
        40965 => "Interoperability IFD",
        41483 => "FlashEnergy",
        41484 => "SpatialFrequencyResponse",
        41486 => "FocalPlaneXResolution",
        41487 => "FocalPlaneYResolution",
        41488 => "FocalPlaneResolutionUnit",
        41492 => "SubjectLocation",
        41493 => "ExposureIndex",
        41495 => "SensingMethod",
        41728 => "FileSource",
        41729 => "SceneType",
        41730 => "CFAPattern",
        41985 => "CustomRendered",
        41986 => "ExposureMode",
        41987 => "WhiteBalance",
        41988 => "DigitalZoomRatio",
        41989 => "FocalLengthIn35mmFilm",
        41990 => "SceneCaptureType",
        41991 => "GainControl",
        41992 => "Contrast",
        41993 => "Saturation",
        41994 => "Sharpness",
        41995 => "DeviceSettingDescription",
        41996 => "SubjectDistanceRange",
        42016 => "ImageUniqueID",
        42032 => "CameraOwnerName",
        42033 => "BodySerialNumber",
        42034 => "LensSpecification",
        42035 => "LensMake",
        42036 => "LensModel",
        42037 => "LensSerialNumber",
        42112 => "GDAL_METADATA",
        42113 => "GDAL_NODATA",
        48129 => "PixelFormat",
        48130 => "Transformation",
        48131 => "Uncompressed",
        48132 => "ImageType",
        48256 => "ImageWidth",
        48257 => "ImageHeight",
        48258 => "WidthResolution",
        48259 => "HeightResolution",
        48320 => "ImageOffset",
        48321 => "ImageByteCount",
        48322 => "AlphaOffset",
        48323 => "AlphaByteCount",
        48324 => "ImageDataDiscard",
        48325 => "AlphaDataDiscard",
        50215 => "Oce Scanjob Description",
        50216 => "Oce Application Selector",
        50217 => "Oce Identification Number",
        50218 => "Oce ImageLogic Characteristics",
        50341 => "PrintImageMatching",
        50706 => "DNGVersion",
        50707 => "DNGBackwardVersion",
        50708 => "UniqueCameraModel",
        50709 => "LocalizedCameraModel",
        50710 => "CFAPlaneColor",
        50711 => "CFALayout",
        50712 => "LinearizationTable",
        50713 => "BlackLevelRepeatDim",
        50714 => "BlackLevel",
        50715 => "BlackLevelDeltaH",
        50716 => "BlackLevelDeltaV",
        50717 => "WhiteLevel",
        50718 => "DefaultScale",
        50719 => "DefaultCropOrigin",
        50720 => "DefaultCropSize",
        50721 => "ColorMatrix1",
        50722 => "ColorMatrix2",
        50723 => "CameraCalibration1",
        50724 => "CameraCalibration2",
        50725 => "ReductionMatrix1",
        50726 => "ReductionMatrix2",
        50727 => "AnalogBalance",
        50728 => "AsShotNeutral",
        50729 => "AsShotWhiteXY",
        50730 => "BaselineExposure",
        50731 => "BaselineNoise",
        50732 => "BaselineSharpness",
        50733 => "BayerGreenSplit",
        50734 => "LinearResponseLimit",
        50735 => "CameraSerialNumber",
        50736 => "LensInfo",
        50737 => "ChromaBlurRadius",
        50738 => "AntiAliasStrength",
        50739 => "ShadowScale",
        50740 => "DNGPrivateData",
        50741 => "MakerNoteSafety",
        50752 => "CR2Slices",
        50778 => "CalibrationIlluminant1",
        50779 => "CalibrationIlluminant2",
        50780 => "BestQualityScale",
        50781 => "RawDataUniqueID",
        50784 => "Alias Layer Metadata",
        50827 => "OriginalRawFileName",
        50828 => "OriginalRawFileData",
        50829 => "ActiveArea",
        50830 => "MaskedAreas",
        50831 => "AsShotICCProfile",
        50832 => "AsShotPreProfileMatrix",
        50833 => "CurrentICCProfile",
        50834 => "CurrentPreProfileMatrix",
        50879 => "ColorimetricReference",
        50931 => "CameraCalibrationSignature",
        50932 => "ProfileCalibrationSignature",
        50933 => "ExtraCameraProfiles",
        50934 => "AsShotProfileName",
        50935 => "NoiseReductionApplied",
        50936 => "ProfileName",
        50937 => "ProfileHueSatMapDims",
        50938 => "ProfileHueSatMapData1",
        50939 => "ProfileHueSatMapData2",
        50940 => "ProfileToneCurve",
        50941 => "ProfileEmbedPolicy",
        50942 => "ProfileCopyright",
        50964 => "ForwardMatrix1",
        50965 => "ForwardMatrix2",
        50966 => "PreviewApplicationName",
        50967 => "PreviewApplicationVersion",
        50968 => "PreviewSettingsName",
        50969 => "PreviewSettingsDigest",
        50970 => "PreviewColorSpace",
        50971 => "PreviewDateTime",
        50972 => "RawImageDigest",
        50973 => "OriginalRawFileDigest",
        50974 => "SubTileBlockSize",
        50975 => "RowInterleaveFactor",
        50981 => "ProfileLookTableDims",
        50982 => "ProfileLookTableData",
        51008 => "OpcodeList1",
        51009 => "OpcodeList2",
        51022 => "OpcodeList3",
        51041 => "NoiseProfile",
        51089 => "OriginalDefaultFinalSize",
        51090 => "OriginalBestQualityFinalSize",
        51091 => "OriginalDefaultCropSize",
        51107 => "ProfileHueSatMapEncoding",
        51108 => "ProfileLookTableEncoding",
        51109 => "BaselineExposureOffset",
        51110 => "DefaultBlackRender",
        51111 => "NewRawImageDigest",
        51112 => "RawToPreviewGain",
        51125 => "DefaultUserCrop",
        _ => "Unknown",
    }
}

} // verus!
