use jpeglab::markers::ToVec;
use jpeglab::markers::APP0;
use jpeglab::markers::DHT;
use jpeglab::markers::DQT;
use jpeglab::markers::EOI;
use jpeglab::markers::SOF0;
use jpeglab::markers::SOI;
use jpeglab::markers::SOS;
use jpeglab::quant::luminance_quantization_table;
use jpeglab::tables::default_luminance_dc_huffman_table;

#[test]
fn test_app0() {
    let app0 = APP0::default().to_vec();
    assert_eq!(
        app0,
        [
            0xFF, 0xE0, //
            0x00, 0x10, //
            0x4A, 0x46, 0x49, 0x46, 0x00, //
            0x01, //
            0x01, //
            0x00, //
            0x00, 0x01, //
            0x00, 0x01, //
            0x00, //
            0x00, //
        ]
    );
}

#[test]
fn test_sof0() {
    let sof0 = SOF0::default().to_vec();
    assert_eq!(
        sof0,
        [
            0xFF, 0xC0, //
            0x00, 0x11, //
            0x08, //
            0x00, 0x00, //
            0x00, 0x00, //
            0x03, //
            0x01, 0x21, 0x00, //
            0x02, 0x11, 0x01, //
            0x03, 0x11, 0x01, //
        ]
    );
}

#[test]
fn test_sos() {
    let sos = SOS::default().to_vec();
    assert_eq!(
        sos,
        [
            0xFF, 0xDA, //
            0x00, 0x0C, //
            0x03, //
            0x01, 0x01, //
            0x02, 0x23, //
            0x03, 0x23, //
            0x00, //
            0x3F, //
            0x00, //
        ]
    );
}

#[test]
fn soi_and_eoi_are_their_markers() {
    assert_eq!(SOI.to_vec(), [0xFF, 0xD8]);
    assert_eq!(EOI.to_vec(), [0xFF, 0xD9]);
}

#[test]
fn baseline_scan_header_names_tables_zero_and_one() {
    let sos = SOS::baseline().to_vec();
    assert_eq!(
        sos,
        [0xFF, 0xDA, 0x00, 0x0C, 0x03, 0x01, 0x00, 0x02, 0x11, 0x03, 0x11, 0x00, 0x3F, 0x00]
    );
}

#[test]
fn sof0_carries_its_size_high_byte_first() {
    let mut sof0 = SOF0::default();
    sof0.lines = 0x0102;
    sof0.samples_per_line = 0x0304;
    let bytes = sof0.to_vec();
    assert_eq!(&bytes[5..9], &[0x01, 0x02, 0x03, 0x04]);
}

#[test]
fn dqt_writes_entries_in_zigzag_order() {
    let dqt = luminance_quantization_table().to_dqt(0);
    assert_eq!(dqt.length, 131);
    assert!(dqt.is_precision_16);
    assert_eq!(dqt.id, 0);
    assert_eq!(&dqt.table[..6], &[16, 11, 12, 14, 12, 10]);
    assert_eq!(dqt.table[63], 99);
    let bytes = dqt.to_vec();
    assert_eq!(bytes.len(), 2 + 131);
    assert_eq!(&bytes[..5], &[0xFF, 0xDB, 0x00, 0x83, 0x10]);
    assert_eq!(&bytes[5..11], &[0x00, 16, 0x00, 11, 0x00, 12]);
}

#[test]
fn dqt_with_eight_bit_entries_writes_one_byte_each() {
    let mut dqt = DQT::default();
    dqt.is_precision_16 = false;
    dqt.length = 67;
    dqt.id = 2;
    dqt.table[0] = 7;
    dqt.table[63] = 9;
    let bytes = dqt.to_vec();
    assert_eq!(bytes.len(), 2 + 67);
    assert_eq!(&bytes[..6], &[0xFF, 0xDB, 0x00, 0x43, 0x02, 7]);
    assert_eq!(bytes[68], 9);
}

#[test]
fn dht_carries_counts_and_symbols() {
    let dht: DHT = default_luminance_dc_huffman_table().to_dht(1, 0);
    assert_eq!(dht.length, 31);
    let bytes = dht.to_vec();
    assert_eq!(bytes.len(), 2 + 31);
    assert_eq!(&bytes[..5], &[0xFF, 0xC4, 0x00, 0x1F, 0x01]);
    assert_eq!(&bytes[5..21], &[0, 1, 5, 1, 1, 1, 1, 1, 1, 0, 0, 0, 0, 0, 0, 0]);
    assert_eq!(&bytes[21..], &[0, 1, 2, 3, 4, 5, 6, 7, 8, 9, 10, 11]);
}
