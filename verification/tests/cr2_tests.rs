//! Tests of the raw-camera container data model and its tag lookups.

use rasterops::cr2::{
    get_tiff_label, CR2Image, IFDEntry, ImageData, ImageFileDirectory,
};

#[test]
fn test_cr2_image_construction() {
    let img = CR2Image::new([73, 73], 42, 16, String::from("CR"), 2, 0, 4660);
    assert_eq!(img.endianness, [73, 73]);
    assert_eq!(img.magic_number, 42);
    assert_eq!(img.offset_to_first_ifd, 16);
    assert_eq!(img.cr2_magic_word, "CR");
    assert_eq!(img.cr2_major_version, 2);
    assert_eq!(img.cr2_minor_version, 0);
    assert_eq!(img.raw_ifd_offset, 4660);
    assert_eq!(img.images.len(), 0);
}

#[test]
fn test_ifd_entry_lookups() {
    let mut ifd = ImageFileDirectory::new(128);
    assert_eq!(ifd.ifd_offset, 128);
    assert_eq!(ifd.get_image_width(), None);
    assert_eq!(ifd.get_image_height(), None);
    assert_eq!(ifd.get_offset_to_image_data(), None);
    ifd.entries.push(IFDEntry::new(48256, 4, 1, 640));
    ifd.entries.push(IFDEntry::new(48257, 4, 1, 480));
    ifd.entries.push(IFDEntry::new(273, 4, 1, 9000));
    // A second entry with a repeated tag: the first one wins.
    ifd.entries.push(IFDEntry::new(48256, 4, 1, 9999));
    assert_eq!(ifd.get_image_width(), Some(640));
    assert_eq!(ifd.get_image_height(), Some(480));
    assert_eq!(ifd.get_offset_to_image_data(), Some(9000));
    assert_eq!(ifd.get_entry_value(999), None);
}

#[test]
fn test_entry_labels_and_type_names() {
    let entry = IFDEntry::new(273, 4, 1, 9000);
    assert_eq!(entry.tag_id, 273);
    assert_eq!(entry.tag_type, 4);
    assert_eq!(entry.tag_count, 1);
    assert_eq!(entry.tag_value, 9000);
    assert_eq!(entry.tag_string, "9000");
    assert_eq!(IFDEntry::new(1, 1, 1, 0).tag_string, "0");
    assert_eq!(IFDEntry::new(1, 1, 1, 4294967295).tag_string, "4294967295");
    assert_eq!(entry.entry_label(), "StripOffsets");
    assert_eq!(entry.tag_type_name(), "ulong, unsigned 32 bits");
    let ascii = IFDEntry::new(306, 2, 20, 0);
    assert_eq!(ascii.entry_label(), "DateTime");
    assert_eq!(ascii.tag_type_name(), "string, ASCII, 0 terminated");
    assert_eq!(get_tiff_label(48256), "ImageWidth");
    assert_eq!(get_tiff_label(48257), "ImageHeight");
    assert_eq!(get_tiff_label(50752), "CR2Slices");
    assert_eq!(get_tiff_label(1), "Unknown");
    let odd = IFDEntry::new(1, 99, 0, 0);
    assert_eq!(odd.tag_type_name(), "unknown type");
}

#[test]
fn test_image_data_blocks() {
    let empty = ImageData::new();
    assert_eq!(empty.data.len(), 0);
    let block = ImageData::from_data(vec![0xff, 0xd8, 0xff, 0xd9]);
    assert_eq!(block.data, vec![0xff, 0xd8, 0xff, 0xd9]);
}
