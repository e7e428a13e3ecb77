//! Exif metadata: the TIFF header and its image file directories, with
//! tag names, enumerated values and GPS coordinates rendered in words.

use vstd::prelude::*;
use crate::decimal::{fixed_s, lemma_pow10_values, pow10, push_fixed, push_fixed_padded};
use super::{
    Block, BlockModel, ByteRange, all_tree_ok, height_le, input_ok, lemma_push_tree, leaf_m, models,
    no_blocks, node_m, push_block, push_if, rng, tree_ok,
};
use crate::bytes::{avail, bytes_at, fits, has_at, idx, opt_u16, read_u16, read_u32, u16at, u32at};
use crate::text::{
    alt_hex, dec, label_hex16, label_str, lit, lossy_chars, push_str, push_u16, push_u32,
    trim_nul_end_s, trim_nul_end_string, utf8_lossy, zpad,
};
verus! {

/// The registered name of an Exif/TIFF tag, if it is known.
pub open spec fn exif_tag_s(tag: u16) -> Option<Seq<char>> {
    match tag {
        0x000b => Some("ProcessingSoftware"@),
        0x00fe => Some("NewSubfileType"@),
        0x00ff => Some("SubfileType"@),
        0x0100 => Some("ImageWidth"@),
        0x0101 => Some("ImageLength"@),
        0x0102 => Some("BitsPerSample"@),
        0x0103 => Some("Compression"@),
        0x0106 => Some("PhotometricInterpretation"@),
        0x010a => Some("FillOrder"@),
        0x010d => Some("DocumentName"@),
        0x010e => Some("ImageDescription"@),
        0x010f => Some("Make"@),
        0x0110 => Some("Model"@),
        0x0111 => Some("StripOffsets"@),
        0x0112 => Some("Orientation"@),
        0x0115 => Some("SamplesPerPixel"@),
        0x0116 => Some("RowsPerStrip"@),
        0x0117 => Some("StripByteCounts"@),
        0x011a => Some("XResolution"@),
        0x011b => Some("YResolution"@),
        0x011c => Some("PlanarConfiguration"@),
        0x0128 => Some("ResolutionUnit"@),
        0x012d => Some("TransferFunction"@),
        0x0131 => Some("Software"@),
        0x0132 => Some("DateTime"@),
        0x013b => Some("Artist"@),
        0x013c => Some("HostComputer"@),
        0x013d => Some("Predictor"@),
        0x013e => Some("WhitePoint"@),
        0x013f => Some("PrimaryChromaticities"@),
        0x0140 => Some("ColorMap"@),
        0x0142 => Some("TileWidth"@),
        0x0143 => Some("TileLength"@),
        0x0144 => Some("TileOffsets"@),
        0x0145 => Some("TileByteCounts"@),
        0x014a => Some("SubIFDs"@),
        0x0201 => Some("JPEGInterchangeFormat"@),
        0x0202 => Some("JPEGInterchangeFormatLength"@),
        0x0211 => Some("YCbCrCoefficients"@),
        0x0212 => Some("YCbCrSubSampling"@),
        0x0213 => Some("YCbCrPositioning"@),
        0x0214 => Some("ReferenceBlackWhite"@),
        0x02bc => Some("XMLPacket"@),
        0x4746 => Some("Rating"@),
        0x4749 => Some("RatingPercent"@),
        0x800d => Some("ImageID"@),
        0x828d => Some("CFARepeatPatternDim"@),
        0x828e => Some("CFAPattern"@),
        0x828f => Some("BatteryLevel"@),
        0x8298 => Some("Copyright"@),
        0x829a => Some("ExposureTime"@),
        0x829d => Some("FNumber"@),
        0x83bb => Some("IPTCNAA"@),
        0x8649 => Some("ImageResources"@),
        0x8769 => Some("Exif IFD pointer"@),
        0x8773 => Some("InterColorProfile"@),
        0x8822 => Some("ExposureProgram"@),
        0x8824 => Some("SpectralSensitivity"@),
        0x8825 => Some("GPS Info IFD pointer"@),
        0x8827 => Some("ISOSpeedRatings"@),
        0x8828 => Some("OECF"@),
        0x8830 => Some("SensitivityType"@),
        0x8832 => Some("RecommendedExposureIndex"@),
        0x9000 => Some("ExifVersion"@),
        0x9003 => Some("DateTimeOriginal"@),
        0x9004 => Some("DateTimeDigitized"@),
        0x9010 => Some("OffsetTime"@),
        0x9011 => Some("OffsetTimeOriginal"@),
        0x9012 => Some("OffsetTimeDigitized"@),
        0x9101 => Some("ComponentsConfiguration"@),
        0x9102 => Some("CompressedBitsPerPixel"@),
        0x9201 => Some("ShutterSpeedValue"@),
        0x9202 => Some("ApertureValue"@),
        0x9203 => Some("BrightnessValue"@),
        0x9204 => Some("ExposureBiasValue"@),
        0x9205 => Some("MaxApertureValue"@),
        0x9206 => Some("SubjectDistance"@),
        0x9207 => Some("MeteringMode"@),
        0x9208 => Some("LightSource"@),
        0x9209 => Some("Flash"@),
        0x920a => Some("FocalLength"@),
        0x920b => Some("FlashEnergy"@),
        0x920e => Some("FocalPlaneXResolution"@),
        0x920f => Some("FocalPlaneYResolution"@),
        0x9210 => Some("FocalPlaneResolutionUnit"@),
        0x9214 => Some("SubjectLocation"@),
        0x9215 => Some("ExposureIndex"@),
        0x9217 => Some("SensingMethod"@),
        0x9286 => Some("UserComment"@),
        0x9290 => Some("SubSecTime"@),
        0x9291 => Some("SubSecTimeOriginal"@),
        0x9292 => Some("SubSecTimeDigitized"@),
        0x9400 => Some("Temperature"@),
        0x9401 => Some("Humidity"@),
        0x9402 => Some("Pressure"@),
        0x9403 => Some("WaterDepth"@),
        0x9404 => Some("Acceleration"@),
        0x9405 => Some("CameraElevationAngle"@),
        0x9c9b => Some("XPTitle"@),
        0x9c9c => Some("XPComment"@),
        0x9c9d => Some("XPAuthor"@),
        0x9c9e => Some("XPKeywords"@),
        0x9c9f => Some("XPSubject"@),
        0xa000 => Some("FlashpixVersion"@),
        0xa001 => Some("ColorSpace"@),
        0xa002 => Some("PixelXDimension"@),
        0xa003 => Some("PixelYDimension"@),
        0xa004 => Some("RelatedSoundFile"@),
        0xa005 => Some("Interoperability IFD pointer"@),
        0xa20b => Some("FlashEnergy"@),
        0xa20e => Some("FocalPlaneXResolution"@),
        0xa20f => Some("FocalPlaneYResolution"@),
        0xa210 => Some("FocalPlaneResolutionUnit"@),
        0xa214 => Some("SubjectLocation"@),
        0xa215 => Some("ExposureIndex"@),
        0xa217 => Some("SensingMethod"@),
        0xa300 => Some("FileSource"@),
        0xa301 => Some("SceneType"@),
        0xa302 => Some("CFAPattern"@),
        0xa401 => Some("CustomRendered"@),
        0xa402 => Some("ExposureMode"@),
        0xa403 => Some("WhiteBalance"@),
        0xa404 => Some("DigitalZoomRatio"@),
        0xa405 => Some("FocalLengthIn35mmFilm"@),
        0xa406 => Some("SceneCaptureType"@),
        0xa407 => Some("GainControl"@),
        0xa408 => Some("Contrast"@),
        0xa409 => Some("Saturation"@),
        0xa40a => Some("Sharpness"@),
        0xa40b => Some("DeviceSettingDescription"@),
        0xa40c => Some("SubjectDistanceRange"@),
        0xa420 => Some("ImageUniqueID"@),
        0xa430 => Some("CameraOwnerName"@),
        0xa431 => Some("BodySerialNumber"@),
        0xa432 => Some("LensSpecification"@),
        0xa433 => Some("LensMake"@),
        0xa434 => Some("LensModel"@),
        0xa435 => Some("LensSerialNumber"@),
        0xa460 => Some("CompositeImage"@),
        0xa500 => Some("Gamma"@),
        _ => None,
    }
}

fn exif_tag(tag: u16) -> (r: Option<&'static str>)
    ensures
        r matches Some(n) ==> exif_tag_s(tag) == Some(n@),
        r is None ==> exif_tag_s(tag) is None,
{
    match tag {
        0x000b => Some("ProcessingSoftware"),
        0x00fe => Some("NewSubfileType"),
        0x00ff => Some("SubfileType"),
        0x0100 => Some("ImageWidth"),
        0x0101 => Some("ImageLength"),
        0x0102 => Some("BitsPerSample"),
        0x0103 => Some("Compression"),
        0x0106 => Some("PhotometricInterpretation"),
        0x010a => Some("FillOrder"),
        0x010d => Some("DocumentName"),
        0x010e => Some("ImageDescription"),
        0x010f => Some("Make"),
        0x0110 => Some("Model"),
        0x0111 => Some("StripOffsets"),
        0x0112 => Some("Orientation"),
        0x0115 => Some("SamplesPerPixel"),
        0x0116 => Some("RowsPerStrip"),
        0x0117 => Some("StripByteCounts"),
        0x011a => Some("XResolution"),
        0x011b => Some("YResolution"),
        0x011c => Some("PlanarConfiguration"),
        0x0128 => Some("ResolutionUnit"),
        0x012d => Some("TransferFunction"),
        0x0131 => Some("Software"),
        0x0132 => Some("DateTime"),
        0x013b => Some("Artist"),
        0x013c => Some("HostComputer"),
        0x013d => Some("Predictor"),
        0x013e => Some("WhitePoint"),
        0x013f => Some("PrimaryChromaticities"),
        0x0140 => Some("ColorMap"),
        0x0142 => Some("TileWidth"),
        0x0143 => Some("TileLength"),
        0x0144 => Some("TileOffsets"),
        0x0145 => Some("TileByteCounts"),
        0x014a => Some("SubIFDs"),
        0x0201 => Some("JPEGInterchangeFormat"),
        0x0202 => Some("JPEGInterchangeFormatLength"),
        0x0211 => Some("YCbCrCoefficients"),
        0x0212 => Some("YCbCrSubSampling"),
        0x0213 => Some("YCbCrPositioning"),
        0x0214 => Some("ReferenceBlackWhite"),
        0x02bc => Some("XMLPacket"),
        0x4746 => Some("Rating"),
        0x4749 => Some("RatingPercent"),
        0x800d => Some("ImageID"),
        0x828d => Some("CFARepeatPatternDim"),
        0x828e => Some("CFAPattern"),
        0x828f => Some("BatteryLevel"),
        0x8298 => Some("Copyright"),
        0x829a => Some("ExposureTime"),
        0x829d => Some("FNumber"),
        0x83bb => Some("IPTCNAA"),
        0x8649 => Some("ImageResources"),
        0x8769 => Some("Exif IFD pointer"),
        0x8773 => Some("InterColorProfile"),
        0x8822 => Some("ExposureProgram"),
        0x8824 => Some("SpectralSensitivity"),
        0x8825 => Some("GPS Info IFD pointer"),
        0x8827 => Some("ISOSpeedRatings"),
        0x8828 => Some("OECF"),
        0x8830 => Some("SensitivityType"),
        0x8832 => Some("RecommendedExposureIndex"),
        0x9000 => Some("ExifVersion"),
        0x9003 => Some("DateTimeOriginal"),
        0x9004 => Some("DateTimeDigitized"),
        0x9010 => Some("OffsetTime"),
        0x9011 => Some("OffsetTimeOriginal"),
        0x9012 => Some("OffsetTimeDigitized"),
        0x9101 => Some("ComponentsConfiguration"),
        0x9102 => Some("CompressedBitsPerPixel"),
        0x9201 => Some("ShutterSpeedValue"),
        0x9202 => Some("ApertureValue"),
        0x9203 => Some("BrightnessValue"),
        0x9204 => Some("ExposureBiasValue"),
        0x9205 => Some("MaxApertureValue"),
        0x9206 => Some("SubjectDistance"),
        0x9207 => Some("MeteringMode"),
        0x9208 => Some("LightSource"),
        0x9209 => Some("Flash"),
        0x920a => Some("FocalLength"),
        0x920b => Some("FlashEnergy"),
        0x920e => Some("FocalPlaneXResolution"),
        0x920f => Some("FocalPlaneYResolution"),
        0x9210 => Some("FocalPlaneResolutionUnit"),
        0x9214 => Some("SubjectLocation"),
        0x9215 => Some("ExposureIndex"),
        0x9217 => Some("SensingMethod"),
        0x9286 => Some("UserComment"),
        0x9290 => Some("SubSecTime"),
        0x9291 => Some("SubSecTimeOriginal"),
        0x9292 => Some("SubSecTimeDigitized"),
        0x9400 => Some("Temperature"),
        0x9401 => Some("Humidity"),
        0x9402 => Some("Pressure"),
        0x9403 => Some("WaterDepth"),
        0x9404 => Some("Acceleration"),
        0x9405 => Some("CameraElevationAngle"),
        0x9c9b => Some("XPTitle"),
        0x9c9c => Some("XPComment"),
        0x9c9d => Some("XPAuthor"),
        0x9c9e => Some("XPKeywords"),
        0x9c9f => Some("XPSubject"),
        0xa000 => Some("FlashpixVersion"),
        0xa001 => Some("ColorSpace"),
        0xa002 => Some("PixelXDimension"),
        0xa003 => Some("PixelYDimension"),
        0xa004 => Some("RelatedSoundFile"),
        0xa005 => Some("Interoperability IFD pointer"),
        0xa20b => Some("FlashEnergy"),
        0xa20e => Some("FocalPlaneXResolution"),
        0xa20f => Some("FocalPlaneYResolution"),
        0xa210 => Some("FocalPlaneResolutionUnit"),
        0xa214 => Some("SubjectLocation"),
        0xa215 => Some("ExposureIndex"),
        0xa217 => Some("SensingMethod"),
        0xa300 => Some("FileSource"),
        0xa301 => Some("SceneType"),
        0xa302 => Some("CFAPattern"),
        0xa401 => Some("CustomRendered"),
        0xa402 => Some("ExposureMode"),
        0xa403 => Some("WhiteBalance"),
        0xa404 => Some("DigitalZoomRatio"),
        0xa405 => Some("FocalLengthIn35mmFilm"),
        0xa406 => Some("SceneCaptureType"),
        0xa407 => Some("GainControl"),
        0xa408 => Some("Contrast"),
        0xa409 => Some("Saturation"),
        0xa40a => Some("Sharpness"),
        0xa40b => Some("DeviceSettingDescription"),
        0xa40c => Some("SubjectDistanceRange"),
        0xa420 => Some("ImageUniqueID"),
        0xa430 => Some("CameraOwnerName"),
        0xa431 => Some("BodySerialNumber"),
        0xa432 => Some("LensSpecification"),
        0xa433 => Some("LensMake"),
        0xa434 => Some("LensModel"),
        0xa435 => Some("LensSerialNumber"),
        0xa460 => Some("CompositeImage"),
        0xa500 => Some("Gamma"),
        _ => None,
    }
}

/// The registered name of a GPS tag, if it is known.
pub open spec fn gps_tag_s(tag: u16) -> Option<Seq<char>> {
    match tag {
        0x0000 => Some("GPSVersionID"@),
        0x0001 => Some("GPSLatitudeRef"@),
        0x0002 => Some("GPSLatitude"@),
        0x0003 => Some("GPSLongitudeRef"@),
        0x0004 => Some("GPSLongitude"@),
        0x0005 => Some("GPSAltitudeRef"@),
        0x0006 => Some("GPSAltitude"@),
        0x0007 => Some("GPSTimeStamp"@),
        0x0008 => Some("GPSSatellites"@),
        0x0009 => Some("GPSStatus"@),
        0x000a => Some("GPSMeasureMode"@),
        0x000b => Some("GPSDOP"@),
        0x000c => Some("GPSSpeedRef"@),
        0x000d => Some("GPSSpeed"@),
        0x000e => Some("GPSTrackRef"@),
        0x000f => Some("GPSTrack"@),
        0x0010 => Some("GPSImgDirectionRef"@),
        0x0011 => Some("GPSImgDirection"@),
        0x0012 => Some("GPSMapDatum"@),
        0x0013 => Some("GPSDestLatitudeRef"@),
        0x0014 => Some("GPSDestLatitude"@),
        0x0015 => Some("GPSDestLongitudeRef"@),
        0x0016 => Some("GPSDestLongitude"@),
        0x0017 => Some("GPSDestBearingRef"@),
        0x0018 => Some("GPSDestBearing"@),
        0x0019 => Some("GPSDestDistanceRef"@),
        0x001a => Some("GPSDestDistance"@),
        0x001b => Some("GPSProcessingMethod"@),
        0x001c => Some("GPSAreaInformation"@),
        0x001d => Some("GPSDateStamp"@),
        0x001e => Some("GPSDifferential"@),
        0x001f => Some("GPSHPositioningError"@),
        _ => None,
    }
}

fn gps_tag(tag: u16) -> (r: Option<&'static str>)
    ensures
        r matches Some(n) ==> gps_tag_s(tag) == Some(n@),
        r is None ==> gps_tag_s(tag) is None,
{
    match tag {
        0x0000 => Some("GPSVersionID"),
        0x0001 => Some("GPSLatitudeRef"),
        0x0002 => Some("GPSLatitude"),
        0x0003 => Some("GPSLongitudeRef"),
        0x0004 => Some("GPSLongitude"),
        0x0005 => Some("GPSAltitudeRef"),
        0x0006 => Some("GPSAltitude"),
        0x0007 => Some("GPSTimeStamp"),
        0x0008 => Some("GPSSatellites"),
        0x0009 => Some("GPSStatus"),
        0x000a => Some("GPSMeasureMode"),
        0x000b => Some("GPSDOP"),
        0x000c => Some("GPSSpeedRef"),
        0x000d => Some("GPSSpeed"),
        0x000e => Some("GPSTrackRef"),
        0x000f => Some("GPSTrack"),
        0x0010 => Some("GPSImgDirectionRef"),
        0x0011 => Some("GPSImgDirection"),
        0x0012 => Some("GPSMapDatum"),
        0x0013 => Some("GPSDestLatitudeRef"),
        0x0014 => Some("GPSDestLatitude"),
        0x0015 => Some("GPSDestLongitudeRef"),
        0x0016 => Some("GPSDestLongitude"),
        0x0017 => Some("GPSDestBearingRef"),
        0x0018 => Some("GPSDestBearing"),
        0x0019 => Some("GPSDestDistanceRef"),
        0x001a => Some("GPSDestDistance"),
        0x001b => Some("GPSProcessingMethod"),
        0x001c => Some("GPSAreaInformation"),
        0x001d => Some("GPSDateStamp"),
        0x001e => Some("GPSDifferential"),
        0x001f => Some("GPSHPositioningError"),
        _ => None,
    }
}

/// The meaning of an enumerated Exif SHORT value, if it is known.
pub open spec fn exif_enum_s(tag: u16, value: u16) -> Option<Seq<char>> {
    if tag == 0x0103 {
        if value == 1 {
            Some("Uncompressed"@)
        } else if value == 6 {
            Some("JPEG"@)
        } else {
            None
        }
    } else if tag == 0x0112 {
        if value == 1 {
            Some("Horizontal (normal)"@)
        } else if value == 2 {
            Some("Mirrored horizontal"@)
        } else if value == 3 {
            Some("Rotated 180"@)
        } else if value == 4 {
            Some("Mirrored vertical"@)
        } else if value == 5 {
            Some("Mirrored horizontal, rotated 90 CW"@)
        } else if value == 6 {
            Some("Rotated 90 CW (Vertical)"@)
        } else if value == 7 {
            Some("Mirrored horizontal, rotated 90 CCW"@)
        } else if value == 8 {
            Some("Rotated 90 CCW (Vertical)"@)
        } else {
            None
        }
    } else if tag == 0x0128 {
        if value == 1 {
            Some("None"@)
        } else if value == 2 {
            Some("Inches"@)
        } else if value == 3 {
            Some("Centimeters"@)
        } else {
            None
        }
    } else if tag == 0x0213 {
        if value == 1 {
            Some("Centered"@)
        } else if value == 2 {
            Some("Co-sited"@)
        } else {
            None
        }
    } else if tag == 0x8822 {
        if value == 0 {
            Some("Not defined"@)
        } else if value == 1 {
            Some("Manual"@)
        } else if value == 2 {
            Some("Normal program"@)
        } else if value == 3 {
            Some("Aperture priority"@)
        } else if value == 4 {
            Some("Shutter priority"@)
        } else if value == 5 {
            Some("Creative program"@)
        } else if value == 6 {
            Some("Action program"@)
        } else if value == 7 {
            Some("Portrait mode"@)
        } else if value == 8 {
            Some("Landscape mode"@)
        } else {
            None
        }
    } else if tag == 0x9207 {
        if value == 0 {
            Some("Unknown"@)
        } else if value == 1 {
            Some("Average"@)
        } else if value == 2 {
            Some("Center-weighted average"@)
        } else if value == 3 {
            Some("Spot"@)
        } else if value == 4 {
            Some("Multi-spot"@)
        } else if value == 5 {
            Some("Pattern"@)
        } else if value == 6 {
            Some("Partial"@)
        } else if value == 255 {
            Some("Other"@)
        } else {
            None
        }
    } else if tag == 0x9208 {
        if value == 0 {
            Some("Unknown"@)
        } else if value == 1 {
            Some("Daylight"@)
        } else if value == 2 {
            Some("Fluorescent"@)
        } else if value == 3 {
            Some("Tungsten"@)
        } else if value == 4 {
            Some("Flash"@)
        } else if value == 9 {
            Some("Fine weather"@)
        } else if value == 10 {
            Some("Cloudy"@)
        } else if value == 11 {
            Some("Shade"@)
        } else if value == 255 {
            Some("Other"@)
        } else {
            None
        }
    } else if tag == 0x9209 {
        if value == 0x00 {
            Some("No flash"@)
        } else if value == 0x01 {
            Some("Flash fired"@)
        } else if value == 0x05 {
            Some("Flash fired, return not detected"@)
        } else if value == 0x07 {
            Some("Flash fired, return detected"@)
        } else if value == 0x09 {
            Some("Flash fired, compulsory"@)
        } else if value == 0x0d {
            Some("Flash fired, compulsory, return not detected"@)
        } else if value == 0x0f {
            Some("Flash fired, compulsory, return detected"@)
        } else if value == 0x10 {
            Some("Flash did not fire, compulsory"@)
        } else if value == 0x18 {
            Some("No flash function"@)
        } else if value == 0x19 {
            Some("Flash fired, auto mode"@)
        } else if value == 0x1d {
            Some("Flash fired, auto mode, return not detected"@)
        } else if value == 0x1f {
            Some("Flash fired, auto mode, return detected"@)
        } else if value == 0x20 {
            Some("No flash function"@)
        } else {
            None
        }
    } else if tag == 0xa001 {
        if value == 1 {
            Some("sRGB"@)
        } else if value == 0xffff {
            Some("Uncalibrated"@)
        } else {
            None
        }
    } else if tag == 0xa403 {
        if value == 0 {
            Some("Auto"@)
        } else if value == 1 {
            Some("Manual"@)
        } else {
            None
        }
    } else if tag == 0xa406 {
        if value == 0 {
            Some("Standard"@)
        } else if value == 1 {
            Some("Landscape"@)
        } else if value == 2 {
            Some("Portrait"@)
        } else if value == 3 {
            Some("Night scene"@)
        } else {
            None
        }
    } else {
        None
    }
}

pub fn exif_enum_value(tag: u16, value: u16) -> (r: Option<&'static str>)
    ensures
        r matches Some(n) ==> exif_enum_s(tag, value) == Some(n@),
        r is None ==> exif_enum_s(tag, value) is None,
{
    if tag == 0x0103 {
        if value == 1 {
            Some("Uncompressed")
        } else if value == 6 {
            Some("JPEG")
        } else {
            None
        }
    } else if tag == 0x0112 {
        if value == 1 {
            Some("Horizontal (normal)")
        } else if value == 2 {
            Some("Mirrored horizontal")
        } else if value == 3 {
            Some("Rotated 180")
        } else if value == 4 {
            Some("Mirrored vertical")
        } else if value == 5 {
            Some("Mirrored horizontal, rotated 90 CW")
        } else if value == 6 {
            Some("Rotated 90 CW (Vertical)")
        } else if value == 7 {
            Some("Mirrored horizontal, rotated 90 CCW")
        } else if value == 8 {
            Some("Rotated 90 CCW (Vertical)")
        } else {
            None
        }
    } else if tag == 0x0128 {
        if value == 1 {
            Some("None")
        } else if value == 2 {
            Some("Inches")
        } else if value == 3 {
            Some("Centimeters")
        } else {
            None
        }
    } else if tag == 0x0213 {
        if value == 1 {
            Some("Centered")
        } else if value == 2 {
            Some("Co-sited")
        } else {
            None
        }
    } else if tag == 0x8822 {
        if value == 0 {
            Some("Not defined")
        } else if value == 1 {
            Some("Manual")
        } else if value == 2 {
            Some("Normal program")
        } else if value == 3 {
            Some("Aperture priority")
        } else if value == 4 {
            Some("Shutter priority")
        } else if value == 5 {
            Some("Creative program")
        } else if value == 6 {
            Some("Action program")
        } else if value == 7 {
            Some("Portrait mode")
        } else if value == 8 {
            Some("Landscape mode")
        } else {
            None
        }
    } else if tag == 0x9207 {
        if value == 0 {
            Some("Unknown")
        } else if value == 1 {
            Some("Average")
        } else if value == 2 {
            Some("Center-weighted average")
        } else if value == 3 {
            Some("Spot")
        } else if value == 4 {
            Some("Multi-spot")
        } else if value == 5 {
            Some("Pattern")
        } else if value == 6 {
            Some("Partial")
        } else if value == 255 {
            Some("Other")
        } else {
            None
        }
    } else if tag == 0x9208 {
        if value == 0 {
            Some("Unknown")
        } else if value == 1 {
            Some("Daylight")
        } else if value == 2 {
            Some("Fluorescent")
        } else if value == 3 {
            Some("Tungsten")
        } else if value == 4 {
            Some("Flash")
        } else if value == 9 {
            Some("Fine weather")
        } else if value == 10 {
            Some("Cloudy")
        } else if value == 11 {
            Some("Shade")
        } else if value == 255 {
            Some("Other")
        } else {
            None
        }
    } else if tag == 0x9209 {
        if value == 0x00 {
            Some("No flash")
        } else if value == 0x01 {
            Some("Flash fired")
        } else if value == 0x05 {
            Some("Flash fired, return not detected")
        } else if value == 0x07 {
            Some("Flash fired, return detected")
        } else if value == 0x09 {
            Some("Flash fired, compulsory")
        } else if value == 0x0d {
            Some("Flash fired, compulsory, return not detected")
        } else if value == 0x0f {
            Some("Flash fired, compulsory, return detected")
        } else if value == 0x10 {
            Some("Flash did not fire, compulsory")
        } else if value == 0x18 {
            Some("No flash function")
        } else if value == 0x19 {
            Some("Flash fired, auto mode")
        } else if value == 0x1d {
            Some("Flash fired, auto mode, return not detected")
        } else if value == 0x1f {
            Some("Flash fired, auto mode, return detected")
        } else if value == 0x20 {
            Some("No flash function")
        } else {
            None
        }
    } else if tag == 0xa001 {
        if value == 1 {
            Some("sRGB")
        } else if value == 0xffff {
            Some("Uncalibrated")
        } else {
            None
        }
    } else if tag == 0xa403 {
        if value == 0 {
            Some("Auto")
        } else if value == 1 {
            Some("Manual")
        } else {
            None
        }
    } else if tag == 0xa406 {
        if value == 0 {
            Some("Standard")
        } else if value == 1 {
            Some("Landscape")
        } else if value == 2 {
            Some("Portrait")
        } else if value == 3 {
            Some("Night scene")
        } else {
            None
        }
    } else {
        None
    }
}

/// The name of an Exif/TIFF tag, or the empty string for an unknown tag.
pub fn exif_tag_name(tag: u16) -> (r: &'static str)
    ensures
        exif_tag_s(tag) matches Some(n) ==> r@ == n,
        exif_tag_s(tag) is None ==> r@ == ""@,
{
    match exif_tag(tag) {
        Some(n) => n,
        None => "",
    }
}

/// The name of a GPS tag, or the empty string for an unknown tag.
pub fn gps_tag_name(tag: u16) -> (r: &'static str)
    ensures
        gps_tag_s(tag) matches Some(n) ==> r@ == n,
        gps_tag_s(tag) is None ==> r@ == ""@,
{
    match gps_tag(tag) {
        Some(n) => n,
        None => "",
    }
}

/// The meaning of a GPS reference, status or mode value, if it is known.
pub open spec fn gps_enum_s(tag: u16, v: Seq<char>) -> Option<Seq<char>> {
    if tag == 0x0001 && v == "N"@ {
        Some("North"@)
    } else if tag == 0x0001 && v == "S"@ {
        Some("South"@)
    } else if tag == 0x0003 && v == "E"@ {
        Some("East"@)
    } else if tag == 0x0003 && v == "W"@ {
        Some("West"@)
    } else if tag == 0x0005 && v == "0"@ {
        Some("Above sea level"@)
    } else if tag == 0x0005 && v == "1"@ {
        Some("Below sea level"@)
    } else if tag == 0x0009 && v == "A"@ {
        Some("Measurement in progress"@)
    } else if tag == 0x0009 && v == "V"@ {
        Some("Measurement interoperability"@)
    } else if tag == 0x000a && v == "2"@ {
        Some("2-dimensional"@)
    } else if tag == 0x000a && v == "3"@ {
        Some("3-dimensional"@)
    } else if tag == 0x000c && v == "K"@ {
        Some("Kilometers per hour"@)
    } else if tag == 0x000c && v == "M"@ {
        Some("Miles per hour"@)
    } else if tag == 0x000c && v == "N"@ {
        Some("Knots"@)
    } else if (tag == 0x000e || tag == 0x0010 || tag == 0x0017) && v == "T"@ {
        Some("True direction"@)
    } else if (tag == 0x000e || tag == 0x0010 || tag == 0x0017) && v == "M"@ {
        Some("Magnetic direction"@)
    } else {
        None
    }
}

pub fn gps_enum_value(tag: u16, value: &str) -> (r: Option<&'static str>)
    ensures
        r matches Some(n) ==> gps_enum_s(tag, value@) == Some(n@),
        r is None ==> gps_enum_s(tag, value@) is None,
{
    let v = lit(value);
    if tag == 0x0001 && v == lit("N") {
        Some("North")
    } else if tag == 0x0001 && v == lit("S") {
        Some("South")
    } else if tag == 0x0003 && v == lit("E") {
        Some("East")
    } else if tag == 0x0003 && v == lit("W") {
        Some("West")
    } else if tag == 0x0005 && v == lit("0") {
        Some("Above sea level")
    } else if tag == 0x0005 && v == lit("1") {
        Some("Below sea level")
    } else if tag == 0x0009 && v == lit("A") {
        Some("Measurement in progress")
    } else if tag == 0x0009 && v == lit("V") {
        Some("Measurement interoperability")
    } else if tag == 0x000a && v == lit("2") {
        Some("2-dimensional")
    } else if tag == 0x000a && v == lit("3") {
        Some("3-dimensional")
    } else if tag == 0x000c && v == lit("K") {
        Some("Kilometers per hour")
    } else if tag == 0x000c && v == lit("M") {
        Some("Miles per hour")
    } else if tag == 0x000c && v == lit("N") {
        Some("Knots")
    } else if (tag == 0x000e || tag == 0x0010 || tag == 0x0017) && v == lit("T") {
        Some("True direction")
    } else if (tag == 0x000e || tag == 0x0010 || tag == 0x0017) && v == lit("M") {
        Some("Magnetic direction")
    } else {
        None
    }
}

pub open spec fn exif_type_name_s(t: u16) -> Seq<char> {
    if t == 1 {
        "BYTE"@
    } else if t == 2 {
        "ASCII"@
    } else if t == 3 {
        "SHORT"@
    } else if t == 4 {
        "LONG"@
    } else if t == 5 {
        "RATIONAL"@
    } else if t == 6 {
        "SBYTE"@
    } else if t == 7 {
        "UNDEFINED"@
    } else if t == 8 {
        "SSHORT"@
    } else if t == 9 {
        "SLONG"@
    } else if t == 10 {
        "SRATIONAL"@
    } else if t == 11 {
        "FLOAT"@
    } else if t == 12 {
        "DOUBLE"@
    } else {
        "UNKNOWN"@
    }
}

pub fn exif_type_name(t: u16) -> (r: &'static str)
    ensures
        r@ == exif_type_name_s(t),
{
    if t == 1 {
        "BYTE"
    } else if t == 2 {
        "ASCII"
    } else if t == 3 {
        "SHORT"
    } else if t == 4 {
        "LONG"
    } else if t == 5 {
        "RATIONAL"
    } else if t == 6 {
        "SBYTE"
    } else if t == 7 {
        "UNDEFINED"
    } else if t == 8 {
        "SSHORT"
    } else if t == 9 {
        "SLONG"
    } else if t == 10 {
        "SRATIONAL"
    } else if t == 11 {
        "FLOAT"
    } else if t == 12 {
        "DOUBLE"
    } else {
        "UNKNOWN"
    }
}

/// The size in bytes of one value of a TIFF field type (zero when unknown).
pub open spec fn exif_type_size_s(t: u16) -> nat {
    if t == 1 || t == 2 || t == 6 || t == 7 {
        1
    } else if t == 3 || t == 8 {
        2
    } else if t == 4 || t == 9 || t == 11 {
        4
    } else if t == 5 || t == 10 || t == 12 {
        8
    } else {
        0
    }
}

pub fn exif_type_size(t: u16) -> (r: u32)
    ensures
        r == exif_type_size_s(t),
{
    if t == 1 || t == 2 || t == 6 || t == 7 {
        1
    } else if t == 3 || t == 8 {
        2
    } else if t == 4 || t == 9 || t == 11 {
        4
    } else if t == 5 || t == 10 || t == 12 {
        8
    } else {
        0
    }
}

/// The tag namespace an IFD's entries belong to: the GPS IFD reuses small
/// tag numbers with meanings of its own.
#[derive(Clone, Copy, PartialEq, Eq, Structural)]
pub enum IfdNamespace {
    Exif,
    Gps,
}

pub const MAX_IFD_DEPTH: u32 = 4;

/// A rational stored at `o` as numerator and denominator, with a zero
/// denominator standing for the value zero.
pub open spec fn rational_s(d: Seq<u8>, o: int, le: bool) -> (nat, nat) {
    let num = u32at(d, o, le);
    let den = u32at(d, o + 4, le);
    if den == 0 { (0, 1) } else { (num as nat, den as nat) }
}

/// Three rationals at `o` as degrees, minutes and seconds, followed by the
/// decimal degrees they amount to: `D°M'S.SS" (D.DDDDDD°)`.
pub open spec fn dms_s(d: Seq<u8>, o: int, le: bool) -> Seq<char> {
    let (n1, d1) = rational_s(d, o, le);
    let (n2, d2) = rational_s(d, o + 8, le);
    let (n3, d3) = rational_s(d, o + 16, le);
    let num = n1 * d2 * d3 * 3600 + n2 * d1 * d3 * 60 + n3 * d1 * d2;
    let den = d1 * d2 * d3 * 3600;
    fixed_s(n1, d1, 0) + "\u{b0}"@ + fixed_s(n2, d2, 0) + "'"@ + fixed_s(n3, d3, 2) + "\" ("@ + fixed_s(num, den, 6)
        + "\u{b0})"@
}

/// Three rationals at `o` as hours, minutes and seconds: `HH:MM:SS.SS UTC`.
pub open spec fn timestamp_s(d: Seq<u8>, o: int, le: bool) -> Seq<char> {
    let (n1, d1) = rational_s(d, o, le);
    let (n2, d2) = rational_s(d, o + 8, le);
    let (n3, d3) = rational_s(d, o + 16, le);
    zpad(fixed_s(n1, d1, 0), 2) + ":"@ + zpad(fixed_s(n2, d2, 0), 2) + ":"@ + zpad(fixed_s(n3, d3, 2), 5) + " UTC"@
}

/// Reads the rational at `o`.
fn read_rational(data: &[u8], o: u64, le: bool) -> (r: (u128, u128))
    requires
        input_ok(data@),
        fits(data@, o as int, 8),
    ensures
        r.0 == rational_s(data@, o as int, le).0,
        r.1 == rational_s(data@, o as int, le).1,
        r.0 < 0x1_0000_0000,
        1 <= r.1 < 0x1_0000_0000,
{
    let num = read_u32(data, o, le).unwrap();
    let den = read_u32(data, o + 4, le).unwrap();
    if den == 0 { (0, 1) } else { (num as u128, den as u128) }
}

proof fn lemma_small_fraction(n: u128, d: u128, p: nat)
    requires
        n < 0x1_0000_0000,
        1 <= d < 0x1_0000_0000,
        p <= 2,
    ensures
        d * pow10(p) <= u128::MAX,
        (n / d + 1) * pow10(p) <= u128::MAX,
{
    lemma_pow10_values();
    assert(pow10(p) <= 100);
    assert(n / d <= n) by (nonlinear_arith)
        requires
            d >= 1,
    ;
    assert(d * pow10(p) <= 0x1_0000_0000 * 100) by (nonlinear_arith)
        requires
            d < 0x1_0000_0000,
            pow10(p) <= 100,
    ;
    assert((n / d + 1) * pow10(p) <= 0x1_0000_0000 * 100) by (nonlinear_arith)
        requires
            n / d + 1 <= 0x1_0000_0000,
            pow10(p) <= 100,
    ;
}

/// Appends the DMS rendering of the three rationals at `o`.
pub fn push_dms(s: &mut String, data: &[u8], o: u64, le: bool)
    requires
        input_ok(data@),
        fits(data@, o as int, 24),
    ensures
        final(s)@ == old(s)@ + dms_s(data@, o as int, le),
{
    let (n1, d1) = read_rational(data, o, le);
    let (n2, d2) = read_rational(data, o + 8, le);
    let (n3, d3) = read_rational(data, o + 16, le);
    proof {
        lemma_small_fraction(n1, d1, 0);
        lemma_small_fraction(n2, d2, 0);
        lemma_small_fraction(n3, d3, 2);
        lemma_pow10_values();
    }
    push_fixed(s, n1, d1, 0);
    push_str(s, "\u{b0}");
    push_fixed(s, n2, d2, 0);
    push_str(s, "'");
    push_fixed(s, n3, d3, 2);
    push_str(s, "\" (");
    assert(d1 * d2 < 0x1_0000_0000_0000_0000) by (nonlinear_arith)
        requires
            d1 < 0x1_0000_0000,
            d2 < 0x1_0000_0000,
            d1 >= 1,
            d2 >= 1,
    ;
    assert(d1 * d2 * d3 < 0x1_0000_0000_0000_0000_0000_0000) by (nonlinear_arith)
        requires
            d1 * d2 < 0x1_0000_0000_0000_0000,
            d3 < 0x1_0000_0000,
            d3 >= 1,
    ;
    assert(n1 * d2 * d3 <= 0x1_0000_0000_0000_0000_0000_0000) by (nonlinear_arith)
        requires
            n1 < 0x1_0000_0000,
            d2 < 0x1_0000_0000,
            d3 < 0x1_0000_0000,
    ;
    assert(n2 * d1 * d3 <= 0x1_0000_0000_0000_0000_0000_0000) by (nonlinear_arith)
        requires
            n2 < 0x1_0000_0000,
            d1 < 0x1_0000_0000,
            d3 < 0x1_0000_0000,
    ;
    assert(n3 * d1 * d2 <= 0x1_0000_0000_0000_0000_0000_0000) by (nonlinear_arith)
        requires
            n3 < 0x1_0000_0000,
            d1 < 0x1_0000_0000,
            d2 < 0x1_0000_0000,
    ;
    assert(n1 * d2 < 0x1_0000_0000_0000_0000) by (nonlinear_arith)
        requires
            n1 < 0x1_0000_0000,
            d2 < 0x1_0000_0000,
    ;
    assert(n2 * d1 < 0x1_0000_0000_0000_0000) by (nonlinear_arith)
        requires
            n2 < 0x1_0000_0000,
            d1 < 0x1_0000_0000,
    ;
    assert(n3 * d1 < 0x1_0000_0000_0000_0000) by (nonlinear_arith)
        requires
            n3 < 0x1_0000_0000,
            d1 < 0x1_0000_0000,
    ;
    let den = d1 * d2 * d3 * 3600;
    let num = n1 * d2 * d3 * 3600 + n2 * d1 * d3 * 60 + n3 * d1 * d2;
    assert(num <= 3 * 0x1_0000_0000 * den && den >= 1) by (nonlinear_arith)
        requires
            num == n1 * d2 * d3 * 3600 + n2 * d1 * d3 * 60 + n3 * d1 * d2,
            den == d1 * d2 * d3 * 3600,
            n1 < 0x1_0000_0000,
            n2 < 0x1_0000_0000,
            n3 < 0x1_0000_0000,
            d1 >= 1,
            d2 >= 1,
            d3 >= 1,
    ;
    assert(num / den <= 3 * 0x1_0000_0000) by (nonlinear_arith)
        requires
            num <= 3 * 0x1_0000_0000 * den,
            den >= 1,
    ;
    assert(den * 1_000_000 <= u128::MAX) by (nonlinear_arith)
        requires
            den == d1 * d2 * d3 * 3600,
            d1 * d2 * d3 < 0x1_0000_0000_0000_0000_0000_0000,
    ;
    push_fixed(s, num, den, 6);
    push_str(s, "\u{b0})");
    proof {
        reveal_strlit("\u{b0}");
    }
}

/// Appends the time-of-day rendering of the three rationals at `o`.
pub fn push_timestamp(s: &mut String, data: &[u8], o: u64, le: bool)
    requires
        input_ok(data@),
        fits(data@, o as int, 24),
    ensures
        final(s)@ == old(s)@ + timestamp_s(data@, o as int, le),
{
    let (n1, d1) = read_rational(data, o, le);
    let (n2, d2) = read_rational(data, o + 8, le);
    let (n3, d3) = read_rational(data, o + 16, le);
    proof {
        lemma_small_fraction(n1, d1, 0);
        lemma_small_fraction(n2, d2, 0);
        lemma_small_fraction(n3, d3, 2);
    }
    push_fixed_padded(s, n1, d1, 0, 2);
    push_str(s, ":");
    push_fixed_padded(s, n2, d2, 0, 2);
    push_str(s, ":");
    push_fixed_padded(s, n3, d3, 2, 5);
    push_str(s, " UTC");
}

/// Where an entry's value lives: inline in its four-byte value field when
/// `total` bytes fit there, otherwise at the offset stored in that field,
/// relative to the TIFF header at `ts`.
pub open spec fn value_offset_s(d: Seq<u8>, ts: int, le: bool, vfo: int, total: nat) -> int {
    if total <= 4 {
        vfo
    } else {
        ts + u32at(d, vfo, le)
    }
}

/// A short rendering of an entry's value when it is simple: an ASCII
/// string, a single SHORT or LONG, or a single (signed) RATIONAL shown as
/// `numerator/denominator`; none otherwise or when the value lies outside `d`.
pub open spec fn value_summary_s(d: Seq<u8>, le: bool, t: u16, count: u32, vo: int) -> Option<Seq<char>> {
    if t == 2 {
        if fits(d, vo, count as int) {
            Some(trim_nul_end_s(utf8_lossy(d.subrange(vo, vo + count))))
        } else {
            None
        }
    } else if t == 3 && count == 1 {
        if fits(d, vo, 2) { Some(dec(u16at(d, vo, le) as nat)) } else { None }
    } else if t == 4 && count == 1 {
        if fits(d, vo, 4) { Some(dec(u32at(d, vo, le) as nat)) } else { None }
    } else if (t == 5 || t == 10) && count == 1 {
        if fits(d, vo, 8) {
            Some(dec(u32at(d, vo, le) as nat) + "/"@ + dec(u32at(d, vo + 4, le) as nat))
        } else {
            None
        }
    } else {
        None
    }
}

fn exif_value_summary(data: &[u8], le: bool, t: u16, count: u32, vo: u64) -> (r: Option<String>)
    requires
        input_ok(data@),
        vo <= 0xffff_ffff_0000_0000,
    ensures
        r matches Some(v) ==> value_summary_s(data@, le, t, count, vo as int) == Some(v@),
        r is None ==> value_summary_s(data@, le, t, count, vo as int) is None,
{
    if t == 2 {
        if avail(data, vo, count as u64) {
            let bytes = vstd::slice::slice_subrange(data, idx(data, vo), idx(data, vo + count as u64));
            let cs = lossy_chars(bytes);
            Some(trim_nul_end_string(cs.as_slice()))
        } else {
            None
        }
    } else if t == 3 && count == 1 {
        match read_u16(data, vo, le) {
            Some(v) => {
                let mut s = String::new();
                push_u16(&mut s, v);
                Some(s)
            },
            None => None,
        }
    } else if t == 4 && count == 1 {
        match read_u32(data, vo, le) {
            Some(v) => {
                let mut s = String::new();
                push_u32(&mut s, v);
                Some(s)
            },
            None => None,
        }
    } else if (t == 5 || t == 10) && count == 1 {
        if avail(data, vo, 8) {
            let mut s = String::new();
            push_u32(&mut s, read_u32(data, vo, le).unwrap());
            push_str(&mut s, "/");
            push_u32(&mut s, read_u32(data, vo + 4, le).unwrap());
            Some(s)
        } else {
            None
        }
    } else {
        None
    }
}

/// The DMS or time-of-day rendering of a GPS entry holding three rationals.
pub open spec fn gps_summary_s(d: Seq<u8>, le: bool, tag: u16, t: u16, count: u32, vo: int) -> Option<Seq<char>> {
    if t == 5 && count == 3 && fits(d, vo, 24) {
        if tag == 0x0002 || tag == 0x0004 || tag == 0x0014 || tag == 0x0016 {
            Some(dms_s(d, vo, le))
        } else if tag == 0x0007 {
            Some(timestamp_s(d, vo, le))
        } else {
            None
        }
    } else {
        None
    }
}

/// An entry's value as shown: the GPS coordinate or time rendering, else
/// the simple summary; a known enumerated Exif SHORT or GPS value is named,
/// with the raw value in parentheses.
pub open spec fn entry_value_s(d: Seq<u8>, ts: int, le: bool, ns: IfdNamespace, tag: u16, t: u16, count: u32, vfo: int) -> Option<Seq<char>> {
    let vo = value_offset_s(d, ts, le, vfo, exif_type_size_s(t) * (count as nat));
    let summary = match (if ns == IfdNamespace::Gps { gps_summary_s(d, le, tag, t, count, vo) } else { None }) {
        Some(g) => Some(g),
        None => value_summary_s(d, le, t, count, vo),
    };
    if ns == IfdNamespace::Exif && t == 3 && count == 1 {
        if fits(d, vo, 2) {
            let v = u16at(d, vo, le);
            match exif_enum_s(tag, v) {
                Some(name) => Some(name + " ("@ + dec(v as nat) + ")"@),
                None => Some(dec(v as nat)),
            }
        } else {
            None
        }
    } else if ns == IfdNamespace::Gps {
        match summary {
            Some(v) => match gps_enum_s(tag, v) {
                Some(name) => Some(name + " ("@ + v + ")"@),
                None => Some(v),
            },
            None => None,
        }
    } else {
        summary
    }
}

/// The entry's tag name in its namespace, or `Tag 0x....` when unknown.
pub open spec fn tag_label_s(ns: IfdNamespace, tag: u16) -> Seq<char> {
    match (if ns == IfdNamespace::Exif { exif_tag_s(tag) } else { gps_tag_s(tag) }) {
        Some(n) => n,
        None => "Tag "@ + alt_hex(tag as nat, 6),
    }
}

/// The label of the 12-byte entry at `pos`.
pub open spec fn entry_label_s(d: Seq<u8>, ts: int, le: bool, ns: IfdNamespace, pos: int) -> Seq<char> {
    let tag = u16at(d, pos, le);
    let t = u16at(d, pos + 2, le);
    let count = u32at(d, pos + 4, le);
    let name = tag_label_s(ns, tag);
    match entry_value_s(d, ts, le, ns, tag, t, count, pos + 8) {
        Some(v) => name + ": "@ + v,
        None => name + " ("@ + exif_type_name_s(t) + ", count "@ + dec(count as nat) + ")"@,
    }
}

fn tag_label(ns: IfdNamespace, tag: u16) -> (r: String)
    ensures
        r@ == tag_label_s(ns, tag),
{
    let name = if ns == IfdNamespace::Exif { exif_tag(tag) } else { gps_tag(tag) };
    match name {
        Some(n) => lit(n),
        None => label_hex16("Tag ", tag, 6),
    }
}

fn entry_value(data: &[u8], ts: u64, le: bool, ns: IfdNamespace, tag: u16, t: u16, count: u32, vfo: u64) -> (r: Option<String>)
    requires
        input_ok(data@),
        fits(data@, vfo as int, 4),
        ts <= 0x8000_0000_0000_0000,
        vfo <= 0x8000_0000_0000_0000,
    ensures
        r matches Some(v) ==> entry_value_s(data@, ts as int, le, ns, tag, t, count, vfo as int) == Some(v@),
        r is None ==> entry_value_s(data@, ts as int, le, ns, tag, t, count, vfo as int) is None,
{
    let size = exif_type_size(t) as u64;
    let vo = if size * (count as u64) <= 4 { vfo } else { ts + read_u32(data, vfo, le).unwrap() as u64 };
    let gps = if ns == IfdNamespace::Gps && t == 5 && count == 3 && avail(data, vo, 24) {
        if tag == 0x0002 || tag == 0x0004 || tag == 0x0014 || tag == 0x0016 {
            let mut s = String::new();
            push_dms(&mut s, data, vo, le);
            Some(s)
        } else if tag == 0x0007 {
            let mut s = String::new();
            push_timestamp(&mut s, data, vo, le);
            Some(s)
        } else {
            None
        }
    } else {
        None
    };
    let summary = match gps {
        Some(g) => Some(g),
        None => exif_value_summary(data, le, t, count, vo),
    };
    if ns == IfdNamespace::Exif && t == 3 && count == 1 {
        match read_u16(data, vo, le) {
            Some(v) => match exif_enum_value(tag, v) {
                Some(name) => {
                    let mut s = label_str(name, " (");
                    push_u16(&mut s, v);
                    push_str(&mut s, ")");
                    Some(s)
                },
                None => {
                    let mut s = String::new();
                    push_u16(&mut s, v);
                    Some(s)
                },
            },
            None => None,
        }
    } else if ns == IfdNamespace::Gps {
        match summary {
            Some(v) => match gps_enum_value(tag, v.as_str()) {
                Some(name) => {
                    let mut s = label_str(name, " (");
                    push_str(&mut s, v.as_str());
                    push_str(&mut s, ")");
                    Some(s)
                },
                None => Some(v),
            },
            None => None,
        }
    } else {
        summary
    }
}

fn entry_label(data: &[u8], ts: u64, le: bool, ns: IfdNamespace, pos: u64) -> (r: String)
    requires
        input_ok(data@),
        fits(data@, pos as int, 12),
        ts <= 0x8000_0000_0000_0000,
        pos <= 0x8000_0000_0000_0000,
    ensures
        r@ == entry_label_s(data@, ts as int, le, ns, pos as int),
{
    let tag = read_u16(data, pos, le).unwrap();
    let t = read_u16(data, pos + 2, le).unwrap();
    let count = read_u32(data, pos + 4, le).unwrap();
    let mut s = tag_label(ns, tag);
    match entry_value(data, ts, le, ns, tag, t, count, pos + 8) {
        Some(v) => {
            push_str(&mut s, ": ");
            push_str(&mut s, v.as_str());
        },
        None => {
            push_str(&mut s, " (");
            push_str(&mut s, exif_type_name(t));
            push_str(&mut s, ", count ");
            push_u32(&mut s, count);
            push_str(&mut s, ")");
        },
    }
    s
}

/// The IFD a pointer tag leads to, with its label and namespace.
pub open spec fn sub_ifd_s(ns: IfdNamespace, tag: u16) -> Option<(Seq<char>, IfdNamespace)> {
    if ns == IfdNamespace::Exif && tag == 0x8769 {
        Some(("Exif SubIFD"@, IfdNamespace::Exif))
    } else if ns == IfdNamespace::Exif && tag == 0xa005 {
        Some(("Interoperability IFD"@, IfdNamespace::Exif))
    } else if ns == IfdNamespace::Exif && tag == 0x8825 {
        Some(("GPS IFD"@, IfdNamespace::Gps))
    } else {
        None
    }
}

/// The IFD at offset `off` from the TIFF header at `ts`: its entries up to
/// the declared count or the end of `d`; none when its entry count lies
/// outside `d`. Pointer tags below depth `MAX_IFD_DEPTH` nest the IFD they
/// point to, when it parses.
pub open spec fn ifd_s(d: Seq<u8>, ts: int, off: u32, le: bool, label: Seq<char>, ns: IfdNamespace, depth: nat) -> Option<BlockModel>
    decreases MAX_IFD_DEPTH - depth, 2int, 0int,
{
    let start = ts + off;
    if !fits(d, start, 2) {
        None
    } else {
        let (ch, end) = entries_s(d, ts, le, ns, depth, u16at(d, start, le) as nat, 0, start + 2, Seq::empty());
        Some(node_m(label, rng(start, end), ch))
    }
}

/// Entries `i..n` from `pos` on, appended to `acc`, and the offset after the last.
pub open spec fn entries_s(d: Seq<u8>, ts: int, le: bool, ns: IfdNamespace, depth: nat, n: nat, i: nat, pos: int, acc: Seq<BlockModel>) -> (Seq<BlockModel>, int)
    decreases MAX_IFD_DEPTH - depth, 1int, n - i,
{
    if i >= n || d.len() < pos + 12 {
        (acc, pos)
    } else {
        entries_s(d, ts, le, ns, depth, n, i + 1, pos + 12, acc.push(entry_s(d, ts, le, ns, depth, pos)))
    }
}

/// The entry at `pos`: the IFD it points to, or a leaf with its label.
pub open spec fn entry_s(d: Seq<u8>, ts: int, le: bool, ns: IfdNamespace, depth: nat, pos: int) -> BlockModel
    decreases MAX_IFD_DEPTH - depth, 0int, 0int,
{
    let leaf = leaf_m(entry_label_s(d, ts, le, ns, pos), rng(pos, pos + 12));
    match sub_ifd_s(ns, u16at(d, pos, le)) {
        Some((label, sub_ns)) => if depth < MAX_IFD_DEPTH {
            match ifd_s(d, ts, u32at(d, pos + 8, le), le, label, sub_ns, depth + 1) {
                Some(b) => b,
                None => leaf,
            }
        } else {
            leaf
        },
        None => leaf,
    }
}

fn entry_block(data: &[u8], ts: u64, le: bool, ns: IfdNamespace, depth: u32, pos: u64) -> (b: Block)
    requires
        input_ok(data@),
        fits(data@, pos as int, 12),
        ts <= 0x8000_0000_0000_0000,
        depth <= MAX_IFD_DEPTH,
    ensures
        b@ == entry_s(data@, ts as int, le, ns, depth as nat, pos as int),
    decreases MAX_IFD_DEPTH - depth, 0int,
{
    let tag = read_u16(data, pos, le).unwrap();
    let sub = if ns == IfdNamespace::Exif && tag == 0x8769 {
        Some(("Exif SubIFD", IfdNamespace::Exif))
    } else if ns == IfdNamespace::Exif && tag == 0xa005 {
        Some(("Interoperability IFD", IfdNamespace::Exif))
    } else if ns == IfdNamespace::Exif && tag == 0x8825 {
        Some(("GPS IFD", IfdNamespace::Gps))
    } else {
        None
    };
    match sub {
        Some((label, sub_ns)) => {
            if depth < MAX_IFD_DEPTH {
                let sub_offset = read_u32(data, pos + 8, le).unwrap();
                match ifd_block(data, ts, sub_offset, le, label, sub_ns, depth + 1) {
                    Some(b) => return b,
                    None => {},
                }
            }
        },
        None => {},
    }
    Block::leaf(entry_label(data, ts, le, ns, pos), ByteRange::new(pos, pos + 12))
}

/// The IFD at offset `off` from the TIFF header at `ts`, labelled `label`.
pub fn ifd_block(data: &[u8], ts: u64, off: u32, le: bool, label: &str, ns: IfdNamespace, depth: u32) -> (r: Option<Block>)
    requires
        input_ok(data@),
        ts <= 0x8000_0000_0000_0000,
        depth <= MAX_IFD_DEPTH,
    ensures
        r matches Some(b) ==> ifd_s(data@, ts as int, off, le, label@, ns, depth as nat) == Some(b@),
        r is None ==> ifd_s(data@, ts as int, off, le, label@, ns, depth as nat) is None,
    decreases MAX_IFD_DEPTH - depth, 1int,
{
    let start = ts + off as u64;
    let n = match read_u16(data, start, le) {
        Some(v) => v,
        None => return None,
    };
    let ghost d = data@;
    let data_len = data.len() as u64;
    let mut children = no_blocks();
    let mut pos = start + 2;
    let mut i: u16 = 0;
    while i < n
        invariant_except_break
            entries_s(d, ts as int, le, ns, depth as nat, n as nat, 0, start + 2, Seq::empty())
                == entries_s(d, ts as int, le, ns, depth as nat, n as nat, i as nat, pos as int, models(children@)),
        invariant
            d == data@,
            input_ok(d),
            data_len == d.len(),
            ts <= 0x8000_0000_0000_0000,
            depth <= MAX_IFD_DEPTH,
            i <= n,
            pos == start + 2 + 12 * i,
            start <= 0x8000_0000_ffff_ffff,
        ensures
            entries_s(d, ts as int, le, ns, depth as nat, n as nat, 0, start + 2, Seq::empty())
                == (models(children@), pos as int),
        decreases n - i,
    {
        if data_len < pos + 12 {
            break;
        }
        push_block(&mut children, entry_block(data, ts, le, ns, depth, pos));
        pos = pos + 12;
        i = i + 1;
    }
    Some(Block::node(lit(label), ByteRange::new(start, pos), children))
}

proof fn lemma_entry_height(d: Seq<u8>, ts: int, le: bool, ns: IfdNamespace, depth: nat, pos: int)
    requires
        depth <= MAX_IFD_DEPTH,
    ensures
        height_le(entry_s(d, ts, le, ns, depth, pos), (MAX_IFD_DEPTH - depth) as nat),
    decreases MAX_IFD_DEPTH - depth, 0int, 0int,
{
    if let Some((label, sub_ns)) = sub_ifd_s(ns, u16at(d, pos, le)) {
        if depth < MAX_IFD_DEPTH {
            lemma_ifd_height(d, ts, u32at(d, pos + 8, le), le, label, sub_ns, depth + 1);
        }
    }
}

proof fn lemma_entries_height(d: Seq<u8>, ts: int, le: bool, ns: IfdNamespace, depth: nat, n: nat, i: nat, pos: int,
    acc: Seq<BlockModel>)
    requires
        depth <= MAX_IFD_DEPTH,
        forall|j: int| 0 <= j < acc.len() ==> height_le(#[trigger] acc[j], (MAX_IFD_DEPTH - depth) as nat),
    ensures
        forall|j: int| 0 <= j < entries_s(d, ts, le, ns, depth, n, i, pos, acc).0.len()
            ==> height_le(#[trigger] entries_s(d, ts, le, ns, depth, n, i, pos, acc).0[j], (MAX_IFD_DEPTH - depth) as nat),
    decreases MAX_IFD_DEPTH - depth, 1int, n - i,
{
    if !(i >= n || d.len() < pos + 12) {
        let e = entry_s(d, ts, le, ns, depth, pos);
        lemma_entry_height(d, ts, le, ns, depth, pos);
        let next = acc.push(e);
        assert forall|j: int| 0 <= j < next.len() implies height_le(#[trigger] next[j], (MAX_IFD_DEPTH - depth) as nat) by {
            if j < acc.len() {
                assert(next[j] == acc[j]);
            }
        }
        lemma_entries_height(d, ts, le, ns, depth, n, i + 1, pos + 12, next);
        assert(entries_s(d, ts, le, ns, depth, n, i, pos, acc) == entries_s(d, ts, le, ns, depth, n, i + 1, pos + 12, next));
    } else {
        assert(entries_s(d, ts, le, ns, depth, n, i, pos, acc).0 == acc);
    }
}

/// IFD nesting is bounded: an IFD read at depth `depth` has at most
/// `MAX_IFD_DEPTH - depth + 1` levels of blocks below it, its entries and
/// the IFDs they point to, however the pointers in the data run (cycles
/// included).
pub proof fn lemma_ifd_height(d: Seq<u8>, ts: int, off: u32, le: bool, label: Seq<char>, ns: IfdNamespace, depth: nat)
    requires
        depth <= MAX_IFD_DEPTH,
    ensures
        ifd_s(d, ts, off, le, label, ns, depth) matches Some(b) ==> height_le(b, (MAX_IFD_DEPTH - depth + 1) as nat),
    decreases MAX_IFD_DEPTH - depth, 2int, 0int,
{
    let start = ts + off;
    if fits(d, start, 2) {
        let n = u16at(d, start, le) as nat;
        lemma_entries_height(d, ts, le, ns, depth, n, 0, start + 2, Seq::empty());
        let (ch, end) = entries_s(d, ts, le, ns, depth, n, 0, start + 2, Seq::empty());
        let b = node_m(label, rng(start, end), ch);
        assert(ifd_s(d, ts, off, le, label, ns, depth) == Some(b));
        assert forall|i: int| 0 <= i < b.children.len() implies (MAX_IFD_DEPTH - depth + 1) as nat > 0
            && height_le(#[trigger] b.children[i], ((MAX_IFD_DEPTH - depth + 1) as nat - 1) as nat) by {
            assert(b.children[i] == ch[i]);
            assert(((MAX_IFD_DEPTH - depth + 1) as nat - 1) as nat == (MAX_IFD_DEPTH - depth) as nat);
        }
    }
}

proof fn lemma_entries_positions(d: Seq<u8>, ts: int, le: bool, ns: IfdNamespace, depth: nat, n: nat, i: nat,
    pos: int, acc: Seq<BlockModel>, base: int)
    requires
        acc.len() == i,
        pos == base + 12 * i,
        forall|j: int| 0 <= j < acc.len() ==> #[trigger] acc[j] == entry_s(d, ts, le, ns, depth, base + 12 * j),
    ensures
        forall|j: int| 0 <= j < entries_s(d, ts, le, ns, depth, n, i, pos, acc).0.len()
            ==> #[trigger] entries_s(d, ts, le, ns, depth, n, i, pos, acc).0[j] == entry_s(d, ts, le, ns, depth, base + 12 * j),
    decreases n - i,
{
    if !(i >= n || d.len() < pos + 12) {
        let next = acc.push(entry_s(d, ts, le, ns, depth, pos));
        assert forall|j: int| 0 <= j < next.len() implies #[trigger] next[j] == entry_s(d, ts, le, ns, depth, base + 12 * j) by {
            if j < acc.len() {
                assert(next[j] == acc[j]);
            }
        }
        lemma_entries_positions(d, ts, le, ns, depth, n, i + 1, pos + 12, next, base);
        assert(entries_s(d, ts, le, ns, depth, n, i, pos, acc) == entries_s(d, ts, le, ns, depth, n, i + 1, pos + 12, next));
    } else {
        assert(entries_s(d, ts, le, ns, depth, n, i, pos, acc).0 == acc);
    }
}

/// The IFD law: the IFD at `off`, read at depth `depth`, is labelled
/// `label` and has at most `MAX_IFD_DEPTH - depth + 1` levels below it
/// (whatever the pointers in the data do, cycles included). Its `i`-th
/// child is the 12-byte entry at `2 + 12 * i` past the IFD's start: a leaf
/// whose label starts with the tag's name, or, only for the Exif SubIFD,
/// Interoperability and GPS pointer tags of the Exif namespace and only
/// below depth `MAX_IFD_DEPTH`, the IFD the entry points to. A tag with no
/// name in its namespace is named `Tag 0x....`.
pub proof fn lemma_ifd_law(d: Seq<u8>, ts: int, off: u32, le: bool, label: Seq<char>, ns: IfdNamespace, depth: nat)
    requires
        depth <= MAX_IFD_DEPTH,
    ensures
        ifd_s(d, ts, off, le, label, ns, depth) matches Some(b) ==> {
            &&& b.label == label
            &&& height_le(b, (MAX_IFD_DEPTH - depth + 1) as nat)
            &&& forall|i: int| 0 <= i < b.children.len() ==> {
                let pos = ts + off + 2 + 12 * i;
                let tag = u16at(d, pos, le);
                ||| (#[trigger] b.children[i] == leaf_m(entry_label_s(d, ts, le, ns, pos), rng(pos, pos + 12))
                    && entry_label_s(d, ts, le, ns, pos).subrange(0, tag_label_s(ns, tag).len() as int) == tag_label_s(ns, tag))
                ||| (depth < MAX_IFD_DEPTH && sub_ifd_s(ns, tag) is Some
                    && ifd_s(d, ts, u32at(d, pos + 8, le), le, sub_ifd_s(ns, tag).unwrap().0, sub_ifd_s(ns, tag).unwrap().1, depth + 1) == Some(b.children[i]))
            }
        },
        forall|tag: u16| (if ns == IfdNamespace::Exif { exif_tag_s(tag) } else { gps_tag_s(tag) }) is None
            ==> #[trigger] tag_label_s(ns, tag) == "Tag "@ + alt_hex(tag as nat, 6),
{
    lemma_ifd_height(d, ts, off, le, label, ns, depth);
    let start = ts + off;
    if fits(d, start, 2) {
        let n = u16at(d, start, le) as nat;
        lemma_entries_positions(d, ts, le, ns, depth, n, 0, start + 2, Seq::empty(), start + 2);
        let (ch, end) = entries_s(d, ts, le, ns, depth, n, 0, start + 2, Seq::empty());
        let b = node_m(label, rng(start, end), ch);
        assert forall|i: int| 0 <= i < b.children.len() implies {
            let pos = ts + off + 2 + 12 * i;
            let tag = u16at(d, pos, le);
            ||| (#[trigger] b.children[i] == leaf_m(entry_label_s(d, ts, le, ns, pos), rng(pos, pos + 12))
                && entry_label_s(d, ts, le, ns, pos).subrange(0, tag_label_s(ns, tag).len() as int) == tag_label_s(ns, tag))
            ||| (depth < MAX_IFD_DEPTH && sub_ifd_s(ns, tag) is Some
                && ifd_s(d, ts, u32at(d, pos + 8, le), le, sub_ifd_s(ns, tag).unwrap().0, sub_ifd_s(ns, tag).unwrap().1, depth + 1) == Some(b.children[i]))
        } by {
            let pos = ts + off + 2 + 12 * i;
            let tag = u16at(d, pos, le);
            assert(b.children[i] == entry_s(d, ts, le, ns, depth, start + 2 + 12 * i));
            let name = tag_label_s(ns, tag);
            let el = entry_label_s(d, ts, le, ns, pos);
            let t = u16at(d, pos + 2, le);
            let count = u32at(d, pos + 4, le);
            match entry_value_s(d, ts, le, ns, tag, t, count, pos + 8) {
                Some(v) => {
                    assert(el.subrange(0, name.len() as int) =~= name);
                },
                None => {
                    assert(el.subrange(0, name.len() as int) =~= name);
                },
            }
        }
    }
}

proof fn lemma_entry_tree(d: Seq<u8>, ts: int, le: bool, ns: IfdNamespace, depth: nat, pos: int)
    requires
        input_ok(d),
        0 <= ts,
        0 <= pos,
        pos + 12 <= d.len(),
        depth <= MAX_IFD_DEPTH,
    ensures
        tree_ok(entry_s(d, ts, le, ns, depth, pos)),
    decreases MAX_IFD_DEPTH - depth, 0int, 0int,
{
    if let Some((label, sub_ns)) = sub_ifd_s(ns, u16at(d, pos, le)) {
        if depth < MAX_IFD_DEPTH {
            lemma_ifd_tree(d, ts, u32at(d, pos + 8, le), le, label, sub_ns, depth + 1);
        }
    }
}

proof fn lemma_entries_tree(d: Seq<u8>, ts: int, le: bool, ns: IfdNamespace, depth: nat, n: nat, i: nat, pos: int,
    acc: Seq<BlockModel>)
    requires
        input_ok(d),
        0 <= ts,
        0 <= pos,
        depth <= MAX_IFD_DEPTH,
        all_tree_ok(acc),
    ensures
        all_tree_ok(entries_s(d, ts, le, ns, depth, n, i, pos, acc).0),
        pos <= entries_s(d, ts, le, ns, depth, n, i, pos, acc).1,
        pos <= d.len() ==> entries_s(d, ts, le, ns, depth, n, i, pos, acc).1 <= d.len(),
    decreases MAX_IFD_DEPTH - depth, 1int, n - i,
{
    if !(i >= n || d.len() < pos + 12) {
        let e = entry_s(d, ts, le, ns, depth, pos);
        lemma_entry_tree(d, ts, le, ns, depth, pos);
        lemma_push_tree(acc, e);
        lemma_entries_tree(d, ts, le, ns, depth, n, i + 1, pos + 12, acc.push(e));
        assert(entries_s(d, ts, le, ns, depth, n, i, pos, acc) == entries_s(d, ts, le, ns, depth, n, i + 1, pos + 12, acc.push(e)));
    } else {
        assert(entries_s(d, ts, le, ns, depth, n, i, pos, acc) == (acc, pos));
    }
}

/// Every block of an IFD runs forwards, and every leaf has no children.
pub proof fn lemma_ifd_tree(d: Seq<u8>, ts: int, off: u32, le: bool, label: Seq<char>, ns: IfdNamespace, depth: nat)
    requires
        input_ok(d),
        0 <= ts,
        depth <= MAX_IFD_DEPTH,
    ensures
        ifd_s(d, ts, off, le, label, ns, depth) matches Some(b) ==> tree_ok(b),
    decreases MAX_IFD_DEPTH - depth, 2int, 0int,
{
    let start = ts + off;
    if fits(d, start, 2) {
        let n = u16at(d, start, le) as nat;
        lemma_entries_tree(d, ts, le, ns, depth, n, 0, start + 2, Seq::empty());
    }
}

/// The blocks of an Exif APP1 payload at `s..e` run forwards, and every
/// leaf has no children.
pub proof fn lemma_exif_children_tree(d: Seq<u8>, s: int, e: int)
    requires
        input_ok(d),
        0 <= s <= e <= d.len(),
    ensures
        all_tree_ok(exif_children_s(d, s, e)),
{
    reveal(exif_children_s);
    let ts = s + 6;
    if let Some(le) = byte_order_s(d, ts) {
        if opt_u16(d, ts + 2, le) == Some(42u16) && fits(d, ts + 4, 4) {
            let order = if le { "little-endian (II)"@ } else { "big-endian (MM)"@ };
            let c = Seq::empty()
                .push(leaf_m("Identifier: Exif"@, rng(s, s + 6)))
                .push(leaf_m("Byte order: "@ + order, rng(ts, ts + 2)));
            assert(all_tree_ok(c)) by {
                assert(c[0].children.len() == 0 && c[1].children.len() == 0);
            }
            lemma_ifd_tree(d, ts, u32at(d, ts + 4, le), le, "IFD0"@, IfdNamespace::Exif, 0);
            match ifd_s(d, ts, u32at(d, ts + 4, le), le, "IFD0"@, IfdNamespace::Exif, 0) {
                Some(b) => {
                    assert(tree_ok(b.expand()));
                    lemma_push_tree(c, b.expand());
                },
                None => {
                    lemma_push_tree(c, leaf_m("IFD0 (unparseable)"@, rng(s, e)));
                },
            }
        } else {
            assert(all_tree_ok(generic_data_s(s, e, "Exif data"@)));
        }
    } else {
        assert(all_tree_ok(generic_data_s(s, e, "Exif data"@)));
    }
}

/// The data of an APP segment at `s..e` as one span, when it is not empty.
pub open spec fn generic_data_s(s: int, e: int, label: Seq<char>) -> Seq<BlockModel> {
    push_if(Seq::empty(), e > s, leaf_m(label, rng(s, e)))
}

pub fn generic_data_children_labeled(data_start: u64, data_end: u64, label: &str) -> (r: Vec<Block>)
    ensures
        models(r@) == generic_data_s(data_start as int, data_end as int, label@),
{
    let mut v = no_blocks();
    if data_end > data_start {
        push_block(&mut v, Block::leaf(lit(label), ByteRange::new(data_start, data_end)));
    }
    v
}

/// One `Data` block spanning `data_start..data_end`, when that span is not empty.
pub fn generic_data_children(data_start: u64, data_end: u64) -> (r: Vec<Block>)
    ensures
        models(r@) == generic_data_s(data_start as int, data_end as int, "Data"@),
{
    generic_data_children_labeled(data_start, data_end, "Data")
}

/// The byte order a TIFF header at `ts` declares: `Some(true)` for
/// little-endian `II`, `Some(false)` for big-endian `MM`.
pub open spec fn byte_order_s(d: Seq<u8>, ts: int) -> Option<bool> {
    if has_at(d, ts, seq![0x49u8, 0x49u8]) {
        Some(true)
    } else if has_at(d, ts, seq![0x4du8, 0x4du8]) {
        Some(false)
    } else {
        None
    }
}

/// An Exif APP1 payload at `s..e`: the identifier, the TIFF byte order and
/// IFD0 (expanded); the whole payload as one span when the TIFF header is
/// not recognized.
#[verifier::opaque]
pub open spec fn exif_children_s(d: Seq<u8>, s: int, e: int) -> Seq<BlockModel> {
    let ts = s + 6;
    match byte_order_s(d, ts) {
        None => generic_data_s(s, e, "Exif data"@),
        Some(le) => if opt_u16(d, ts + 2, le) != Some(42u16) || !fits(d, ts + 4, 4) {
            generic_data_s(s, e, "Exif data"@)
        } else {
            let order = if le { "little-endian (II)"@ } else { "big-endian (MM)"@ };
            let c = Seq::empty()
                .push(leaf_m("Identifier: Exif"@, rng(s, s + 6)))
                .push(leaf_m("Byte order: "@ + order, rng(ts, ts + 2)));
            match ifd_s(d, ts, u32at(d, ts + 4, le), le, "IFD0"@, IfdNamespace::Exif, 0) {
                Some(b) => c.push(b.expand()),
                None => c.push(leaf_m("IFD0 (unparseable)"@, rng(s, e))),
            }
        },
    }
}

pub fn exif_children(data: &[u8], data_start: u64, data_end: u64) -> (r: Vec<Block>)
    requires
        input_ok(data@),
        data_start <= data@.len(),
    ensures
        models(r@) == exif_children_s(data@, data_start as int, data_end as int),
{
    reveal(exif_children_s);
    let ts = data_start + 6;
    let ii: [u8; 2] = [0x49, 0x49];
    let mm: [u8; 2] = [0x4d, 0x4d];
    assert(ii@ =~= seq![0x49u8, 0x49u8]);
    assert(mm@ =~= seq![0x4du8, 0x4du8]);
    let le = if bytes_at(data, ts, &ii) {
        true
    } else if bytes_at(data, ts, &mm) {
        false
    } else {
        return generic_data_children_labeled(data_start, data_end, "Exif data");
    };
    match read_u16(data, ts + 2, le) {
        Some(42) => {},
        _ => return generic_data_children_labeled(data_start, data_end, "Exif data"),
    }
    let ifd0_offset = match read_u32(data, ts + 4, le) {
        Some(v) => v,
        None => return generic_data_children_labeled(data_start, data_end, "Exif data"),
    };
    let mut ch = no_blocks();
    push_block(&mut ch, Block::leaf(lit("Identifier: Exif"), ByteRange::new(data_start, data_start + 6)));
    let order = if le { "little-endian (II)" } else { "big-endian (MM)" };
    push_block(&mut ch, Block::leaf(label_str("Byte order: ", order), ByteRange::new(ts, ts + 2)));
    match ifd_block(data, ts, ifd0_offset, le, "IFD0", IfdNamespace::Exif, 0) {
        Some(b) => push_block(&mut ch, b.expanded()),
        None => push_block(&mut ch, Block::leaf(lit("IFD0 (unparseable)"), ByteRange::new(data_start, data_end))),
    }
    ch
}

} // verus!
