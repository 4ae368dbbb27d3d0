use jpeglab::bits::BitString;
use jpeglab::entropy::entropy_encode_category;
use jpeglab::entropy::AcEncoder;
use jpeglab::entropy::DcEncoder;
use jpeglab::huffman::JpegHuffmanTable;
use jpeglab::table_text::generate_huffman_table;
use jpeglab::tables::default_chroma_ac_huffman_table;
use jpeglab::tables::default_chroma_dc_huffman_table;
use jpeglab::tables::default_luminance_ac_huffman_table;
use jpeglab::tables::default_luminance_dc_huffman_table;
use jpeglab::tables::CHROMA_AC;
use jpeglab::tables::CHROMA_DC;
use jpeglab::tables::LUMINANCE_AC;
use jpeglab::tables::LUMINANCE_DC;

fn bools(bits: &[u8]) -> Vec<bool> {
    bits.iter().map(|&b| b != 0).collect()
}

fn all_bools(bits: &[BitString]) -> Vec<Vec<bool>> {
    bits.iter().map(|b| b.to_bools()).collect()
}

#[test]
fn print_huffman_tables() {
    fn print_huffman_table(table: &JpegHuffmanTable) {
        println!("{:?}", table);
    }
    print_huffman_table(&default_luminance_dc_huffman_table());
    print_huffman_table(&default_chroma_dc_huffman_table());
    print_huffman_table(&default_luminance_ac_huffman_table());
    print_huffman_table(&default_chroma_ac_huffman_table());
}

#[test]
fn test_generate_bits() {
    let (table, bits) = generate_huffman_table(LUMINANCE_DC).unwrap();
    assert_eq!(all_bools(&table.generate_bits()), all_bools(&bits));

    let (table, bits) = generate_huffman_table(CHROMA_DC).unwrap();
    assert_eq!(all_bools(&table.generate_bits()), all_bools(&bits));

    let (table, bits) = generate_huffman_table(LUMINANCE_AC).unwrap();
    assert_eq!(all_bools(&table.generate_bits()), all_bools(&bits));

    let (table, bits) = generate_huffman_table(CHROMA_AC).unwrap();
    assert_eq!(all_bools(&table.generate_bits()), all_bools(&bits));
}

#[test]
fn test_dc_encoder() {
    let table = default_luminance_dc_huffman_table().to_cached();
    let mut encoder = DcEncoder::new(&table);

    let result = encoder.next(14); // Category 4.
    assert_eq!(
        result.to_bools(),
        bools(&[
            1, 0, 1, //
            1, 1, 1, 0,
        ])
    );

    let result = encoder.next(114); // 100, Category 7.
    assert_eq!(
        result.to_bools(),
        bools(&[
            1, 1, 1, 1, 0, //
            1, 1, 0, 0, 1, 0, 0,
        ])
    );

    let result = encoder.next(-514); // -628, Category A, 1's complement.
    assert_eq!(
        result.to_bools(),
        bools(&[
            1, 1, 1, 1, 1, 1, 1, 0, //
            0, 1, 1, 0, 0, 0, 1, 0, 1, 1,
        ])
    );
}

#[test]
fn test_ac_encoder() {
    let table = default_luminance_ac_huffman_table().to_cached();
    let ac = [
        5, -2, 0, 2, 0, 0, 0, //
        1, 0, 0, 0, 0, 0, 0, 0, //
        0, 0, 0, 0, 0, 0, 0, 0, //
        0, 0, 0, 0, 0, 0, 0, -1, //
        0, 0, 0, 0, 0, 0, 0, 0, //
        0, 0, 0, 0, 0, 0, 0, 0, //
        0, 0, 0, 0, 0, 0, 0, 0, //
        0, 0, 0, 0, 0, 0, 0, 0, //
    ];

    let mut encoder = AcEncoder::new(&table);
    let mut result: Vec<bool> = vec![];
    for v in ac {
        result.extend(encoder.next(v).to_bools());
    }
    result.extend(encoder.flush(true).to_bools());

    let truth = bools(&[
        1, 0, 0, // 0/3
        1, 0, 1, //
        0, 1, // 0/2
        0, 1, //
        1, 1, 0, 1, 1, // 1/2
        1, 0, //
        1, 1, 1, 0, 1, 0, // 3/1
        1, //
        1, 1, 1, 1, 1, 1, 1, 1, 0, 0, 1, // F/0 (ZRL)
        1, 1, 1, 1, 0, 1, 1, // 6/1
        0, //
        1, 0, 1, 0, // 0/0 (EOB)
    ]);

    assert_eq!(result, truth);
}

#[test]
fn default_tables_are_the_tables_of_their_text() {
    let pairs = [
        (default_luminance_dc_huffman_table(), LUMINANCE_DC),
        (default_chroma_dc_huffman_table(), CHROMA_DC),
        (default_luminance_ac_huffman_table(), LUMINANCE_AC),
        (default_chroma_ac_huffman_table(), CHROMA_AC),
    ];
    for (table, text) in pairs {
        let (parsed, _) = generate_huffman_table(text).unwrap();
        assert_eq!(parsed.codes, table.codes);
        assert_eq!(parsed.values, table.values);
    }
}

#[test]
fn text_table_orders_symbols_by_length() {
    let (table, bits) = generate_huffman_table("A\t3\t100\n1\t2\t00\nb\t3\t101\n02\t2\t01").unwrap();
    assert_eq!(table.codes, [0, 2, 2, 0, 0, 0, 0, 0, 0, 0, 0, 0, 0, 0, 0, 0]);
    assert_eq!(table.values, [1, 2, 10, 11]);
    assert_eq!(
        all_bools(&bits),
        vec![bools(&[0, 0]), bools(&[0, 1]), bools(&[1, 0, 0]), bools(&[1, 0, 1])]
    );
    assert_eq!(all_bools(&table.generate_bits()), all_bools(&bits));
}

#[test]
fn text_table_may_leave_the_codeword_out() {
    let (table, bits) = generate_huffman_table("7\t1").unwrap();
    assert_eq!(table.codes[0], 1);
    assert_eq!(table.values, [7]);
    assert_eq!(all_bools(&bits), vec![Vec::<bool>::new()]);
}

#[test]
fn text_table_refuses_what_is_not_a_table() {
    assert!(generate_huffman_table("").is_none());
    assert!(generate_huffman_table("0").is_none());
    assert!(generate_huffman_table("0\t2\t00\n").is_none());
    assert!(generate_huffman_table("G\t2\t00").is_none());
    assert!(generate_huffman_table("0\t0\t").is_none());
    assert!(generate_huffman_table("0\t17\t0").is_none());
    assert!(generate_huffman_table("0\t2\t02").is_none());
    assert!(generate_huffman_table("100\t2\t00").is_none());
    assert!(generate_huffman_table("0\t2\t00000000000000000").is_none());
    let mut many = String::new();
    for _ in 0..256 {
        many.push_str("0\t5\t00000\n");
    }
    many.push_str("0\t5\t00000");
    assert!(generate_huffman_table(&many).is_none());
}

#[test]
fn canonical_codewords_count_up_and_double() {
    let table = JpegHuffmanTable {
        codes: [0, 1, 5, 1, 1, 1, 1, 1, 1, 0, 0, 0, 0, 0, 0, 0],
        values: vec![0, 1, 2, 3, 4, 5, 6, 7, 8, 9, 10, 11],
    };
    let bits = all_bools(&table.generate_bits());
    assert_eq!(bits.len(), 12);
    assert_eq!(bits[0], bools(&[0, 0]));
    assert_eq!(bits[1], bools(&[0, 1, 0]));
    assert_eq!(bits[5], bools(&[1, 1, 0]));
    assert_eq!(bits[6], bools(&[1, 1, 1, 0]));
    assert_eq!(bits[11], bools(&[1, 1, 1, 1, 1, 1, 1, 1, 0]));
}

#[test]
fn canonical_codewords_are_prefix_free_and_ascending() {
    for table in [
        default_luminance_dc_huffman_table(),
        default_chroma_dc_huffman_table(),
        default_luminance_ac_huffman_table(),
        default_chroma_ac_huffman_table(),
    ] {
        let bits = all_bools(&table.generate_bits());
        assert_eq!(bits.len(), table.values.len());
        for i in 0..bits.len() {
            for j in 0..bits.len() {
                if i != j {
                    assert!(!bits[j].starts_with(&bits[i]));
                }
                if i < j && bits[i].len() == bits[j].len() {
                    assert!(bits[i] < bits[j]);
                }
            }
        }
    }
}

#[test]
fn cached_table_maps_each_symbol_to_its_codeword() {
    let table = default_luminance_ac_huffman_table();
    let cached = table.to_cached();
    let bits = all_bools(&table.generate_bits());
    assert_eq!(cached.0.len(), 162);
    for (i, symbol) in table.values.iter().enumerate() {
        assert_eq!(cached.0[symbol].to_bools(), bits[i]);
    }
    assert_eq!(cached.1.codes, table.codes);
    assert_eq!(cached.1.values, table.values);
}

#[test]
fn a_coefficient_is_its_codeword_and_its_value_bits() {
    let table = default_luminance_ac_huffman_table().to_cached();
    assert_eq!(
        entropy_encode_category(&table, -2, None).to_bools(),
        bools(&[0, 1, 0, 1])
    );
    assert_eq!(
        entropy_encode_category(&table, 1, Some(3)).to_bools(),
        bools(&[1, 1, 1, 0, 1, 0, 1])
    );
    assert_eq!(
        entropy_encode_category(&table, 0, Some(15)).to_bools(),
        bools(&[1, 1, 1, 1, 1, 1, 1, 1, 0, 0, 1])
    );
    assert_eq!(entropy_encode_category(&table, 0, None).to_bools(), bools(&[1, 0, 1, 0]));
}

#[test]
fn ac_encoder_holds_zeros_back_until_a_coefficient_comes() {
    let table = default_luminance_ac_huffman_table().to_cached();
    let mut encoder = AcEncoder::new(&table);
    for _ in 0..40 {
        assert!(encoder.next(0).to_bools().is_empty());
    }
    assert_eq!(encoder.zero_run_length, 40);
    let out = encoder.next(1).to_bools();
    let zrl = bools(&[1, 1, 1, 1, 1, 1, 1, 1, 0, 0, 1]);
    let mut expected = zrl.clone();
    expected.extend(zrl);
    // 40 = 2 * 16 + 8: run 8, category 1 is the symbol 81.
    expected.extend(bools(&[1, 1, 1, 1, 1, 1, 0, 0, 0, 1]));
    assert_eq!(out, expected);
    assert_eq!(encoder.zero_run_length, 0);
    assert!(encoder.flush(true).to_bools().is_empty());
}

#[test]
fn a_block_without_trailing_zeros_has_no_end_of_block() {
    let table = default_luminance_ac_huffman_table().to_cached();
    let mut encoder = AcEncoder::new(&table);
    encoder.next(1);
    assert!(encoder.flush(true).to_bools().is_empty());
    encoder.next(0);
    assert_eq!(encoder.flush(true).to_bools(), bools(&[1, 0, 1, 0]));
}
