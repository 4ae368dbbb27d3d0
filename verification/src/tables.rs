//! The four Huffman tables that the encoder uses.

use crate::huffman::count_upto;
use crate::huffman::lemma_codewords_len;
use crate::huffman::JpegHuffmanTable;
use vstd::prelude::*;
use vstd::slice::slice_to_vec;

verus! {

/// The default luminance DC table as text: a line for each symbol, with the
/// symbol in hexadecimal, the length of its codeword and the codeword.
pub const LUMINANCE_DC: &'static str = "0\t2\t00\n\
1\t3\t010\n\
2\t3\t011\n\
3\t3\t100\n\
4\t3\t101\n\
5\t3\t110\n\
6\t4\t1110\n\
7\t5\t11110\n\
8\t6\t111110\n\
9\t7\t1111110\n\
A\t8\t11111110\n\
B\t9\t111111110";

/// The default chrominance DC table as text: a line for each symbol, with the
/// symbol in hexadecimal, the length of its codeword and the codeword.
pub const CHROMA_DC: &'static str = "0\t2\t00\n\
1\t2\t01\n\
2\t2\t10\n\
3\t3\t110\n\
4\t4\t1110\n\
5\t5\t11110\n\
6\t6\t111110\n\
7\t7\t1111110\n\
8\t8\t11111110\n\
9\t9\t111111110\n\
A\t10\t1111111110\n\
B\t11\t11111111110";

/// The default luminance AC table as text: a line for each symbol, with the
/// symbol in hexadecimal, the length of its codeword and the codeword.
pub const LUMINANCE_AC: &'static str = "00\t4\t1010\n\
01\t2\t00\n\
02\t2\t01\n\
03\t3\t100\n\
04\t4\t1011\n\
05\t5\t11010\n\
06\t7\t1111000\n\
07\t8\t11111000\n\
08\t10\t1111110110\n\
09\t16\t1111111110000010\n\
0A\t16\t1111111110000011\n\
11\t4\t1100\n\
12\t5\t11011\n\
13\t7\t1111001\n\
14\t9\t111110110\n\
15\t11\t11111110110\n\
16\t16\t1111111110000100\n\
17\t16\t1111111110000101\n\
18\t16\t1111111110000110\n\
19\t16\t1111111110000111\n\
1A\t16\t1111111110001000\n\
21\t5\t11100\n\
22\t8\t11111001\n\
23\t10\t1111110111\n\
24\t12\t111111110100\n\
25\t16\t1111111110001001\n\
26\t16\t1111111110001010\n\
27\t16\t1111111110001011\n\
28\t16\t1111111110001100\n\
29\t16\t1111111110001101\n\
2A\t16\t1111111110001110\n\
31\t6\t111010\n\
32\t9\t111110111\n\
33\t12\t111111110101\n\
34\t16\t1111111110001111\n\
35\t16\t1111111110010000\n\
36\t16\t1111111110010001\n\
37\t16\t1111111110010010\n\
38\t16\t1111111110010011\n\
39\t16\t1111111110010100\n\
3A\t16\t1111111110010101\n\
41\t6\t111011\n\
42\t10\t1111111000\n\
43\t16\t1111111110010110\n\
44\t16\t1111111110010111\n\
45\t16\t1111111110011000\n\
46\t16\t1111111110011001\n\
47\t16\t1111111110011010\n\
48\t16\t1111111110011011\n\
49\t16\t1111111110011100\n\
4A\t16\t1111111110011101\n\
51\t7\t1111010\n\
52\t11\t11111110111\n\
53\t16\t1111111110011110\n\
54\t16\t1111111110011111\n\
55\t16\t1111111110100000\n\
56\t16\t1111111110100001\n\
57\t16\t1111111110100010\n\
58\t16\t1111111110100011\n\
59\t16\t1111111110100100\n\
5A\t16\t1111111110100101\n\
61\t7\t1111011\n\
62\t12\t111111110110\n\
63\t16\t1111111110100110\n\
64\t16\t1111111110100111\n\
65\t16\t1111111110101000\n\
66\t16\t1111111110101001\n\
67\t16\t1111111110101010\n\
68\t16\t1111111110101011\n\
69\t16\t1111111110101100\n\
6A\t16\t1111111110101101\n\
71\t8\t11111010\n\
72\t12\t111111110111\n\
73\t16\t1111111110101110\n\
74\t16\t1111111110101111\n\
75\t16\t1111111110110000\n\
76\t16\t1111111110110001\n\
77\t16\t1111111110110010\n\
78\t16\t1111111110110011\n\
79\t16\t1111111110110100\n\
7A\t16\t1111111110110101\n\
81\t9\t111111000\n\
82\t15\t111111111000000\n\
83\t16\t1111111110110110\n\
84\t16\t1111111110110111\n\
85\t16\t1111111110111000\n\
86\t16\t1111111110111001\n\
87\t16\t1111111110111010\n\
88\t16\t1111111110111011\n\
89\t16\t1111111110111100\n\
8A\t16\t1111111110111101\n\
91\t9\t111111001\n\
92\t16\t1111111110111110\n\
93\t16\t1111111110111111\n\
94\t16\t1111111111000000\n\
95\t16\t1111111111000001\n\
96\t16\t1111111111000010\n\
97\t16\t1111111111000011\n\
98\t16\t1111111111000100\n\
99\t16\t1111111111000101\n\
9A\t16\t1111111111000110\n\
A1\t9\t111111010\n\
A2\t16\t1111111111000111\n\
A3\t16\t1111111111001000\n\
A4\t16\t1111111111001001\n\
A5\t16\t1111111111001010\n\
A6\t16\t1111111111001011\n\
A7\t16\t1111111111001100\n\
A8\t16\t1111111111001101\n\
A9\t16\t1111111111001110\n\
AA\t16\t1111111111001111\n\
B1\t10\t1111111001\n\
B2\t16\t1111111111010000\n\
B3\t16\t1111111111010001\n\
B4\t16\t1111111111010010\n\
B5\t16\t1111111111010011\n\
B6\t16\t1111111111010100\n\
B7\t16\t1111111111010101\n\
B8\t16\t1111111111010110\n\
B9\t16\t1111111111010111\n\
BA\t16\t1111111111011000\n\
C1\t10\t1111111010\n\
C2\t16\t1111111111011001\n\
C3\t16\t1111111111011010\n\
C4\t16\t1111111111011011\n\
C5\t16\t1111111111011100\n\
C6\t16\t1111111111011101\n\
C7\t16\t1111111111011110\n\
C8\t16\t1111111111011111\n\
C9\t16\t1111111111100000\n\
CA\t16\t1111111111100001\n\
D1\t11\t11111111000\n\
D2\t16\t1111111111100010\n\
D3\t16\t1111111111100011\n\
D4\t16\t1111111111100100\n\
D5\t16\t1111111111100101\n\
D6\t16\t1111111111100110\n\
D7\t16\t1111111111100111\n\
D8\t16\t1111111111101000\n\
D9\t16\t1111111111101001\n\
DA\t16\t1111111111101010\n\
E1\t16\t1111111111101011\n\
E2\t16\t1111111111101100\n\
E3\t16\t1111111111101101\n\
E4\t16\t1111111111101110\n\
E5\t16\t1111111111101111\n\
E6\t16\t1111111111110000\n\
E7\t16\t1111111111110001\n\
E8\t16\t1111111111110010\n\
E9\t16\t1111111111110011\n\
EA\t16\t1111111111110100\n\
F0\t11\t11111111001\n\
F1\t16\t1111111111110101\n\
F2\t16\t1111111111110110\n\
F3\t16\t1111111111110111\n\
F4\t16\t1111111111111000\n\
F5\t16\t1111111111111001\n\
F6\t16\t1111111111111010\n\
F7\t16\t1111111111111011\n\
F8\t16\t1111111111111100\n\
F9\t16\t1111111111111101\n\
FA\t16\t1111111111111110";

/// The default chrominance AC table as text: a line for each symbol, with the
/// symbol in hexadecimal, the length of its codeword and the codeword.
pub const CHROMA_AC: &'static str = "00\t2\t00\n\
01\t2\t01\n\
02\t3\t100\n\
03\t4\t1010\n\
04\t5\t11000\n\
05\t5\t11001\n\
06\t6\t111000\n\
07\t7\t1111000\n\
08\t9\t111110100\n\
09\t10\t1111110110\n\
0A\t12\t111111110100\n\
11\t4\t1011\n\
12\t6\t111001\n\
13\t8\t11110110\n\
14\t9\t111110101\n\
15\t11\t11111110110\n\
16\t12\t111111110101\n\
17\t16\t1111111110001000\n\
18\t16\t1111111110001001\n\
19\t16\t1111111110001010\n\
1A\t16\t1111111110001011\n\
21\t5\t11010\n\
22\t8\t11110111\n\
23\t10\t1111110111\n\
24\t12\t111111110110\n\
25\t15\t111111111000010\n\
26\t16\t1111111110001100\n\
27\t16\t1111111110001101\n\
28\t16\t1111111110001110\n\
29\t16\t1111111110001111\n\
2A\t16\t1111111110010000\n\
31\t5\t11011\n\
32\t8\t11111000\n\
33\t10\t1111111000\n\
34\t12\t111111110111\n\
35\t16\t1111111110010001\n\
36\t16\t1111111110010010\n\
37\t16\t1111111110010011\n\
38\t16\t1111111110010100\n\
39\t16\t1111111110010101\n\
3A\t16\t1111111110010110\n\
41\t6\t111010\n\
42\t9\t111110110\n\
43\t16\t1111111110010111\n\
44\t16\t1111111110011000\n\
45\t16\t1111111110011001\n\
46\t16\t1111111110011010\n\
47\t16\t1111111110011011\n\
48\t16\t1111111110011100\n\
49\t16\t1111111110011101\n\
4A\t16\t1111111110011110\n\
51\t6\t111011\n\
52\t10\t1111111001\n\
53\t16\t1111111110011111\n\
54\t16\t1111111110100000\n\
55\t16\t1111111110100001\n\
56\t16\t1111111110100010\n\
57\t16\t1111111110100011\n\
58\t16\t1111111110100100\n\
59\t16\t1111111110100101\n\
5A\t16\t1111111110100110\n\
61\t7\t1111001\n\
62\t11\t11111110111\n\
63\t16\t1111111110100111\n\
64\t16\t1111111110101000\n\
65\t16\t1111111110101001\n\
66\t16\t1111111110101010\n\
67\t16\t1111111110101011\n\
68\t16\t1111111110101100\n\
69\t16\t1111111110101101\n\
6A\t16\t1111111110101110\n\
71\t7\t1111010\n\
72\t11\t11111111000\n\
73\t16\t1111111110101111\n\
74\t16\t1111111110110000\n\
75\t16\t1111111110110001\n\
76\t16\t1111111110110010\n\
77\t16\t1111111110110011\n\
78\t16\t1111111110110100\n\
79\t16\t1111111110110101\n\
7A\t16\t1111111110110110\n\
81\t8\t11111001\n\
82\t16\t1111111110110111\n\
83\t16\t1111111110111000\n\
84\t16\t1111111110111001\n\
85\t16\t1111111110111010\n\
86\t16\t1111111110111011\n\
87\t16\t1111111110111100\n\
88\t16\t1111111110111101\n\
89\t16\t1111111110111110\n\
8A\t16\t1111111110111111\n\
91\t9\t111110111\n\
92\t16\t1111111111000000\n\
93\t16\t1111111111000001\n\
94\t16\t1111111111000010\n\
95\t16\t1111111111000011\n\
96\t16\t1111111111000100\n\
97\t16\t1111111111000101\n\
98\t16\t1111111111000110\n\
99\t16\t1111111111000111\n\
9A\t16\t1111111111001000\n\
A1\t9\t111111000\n\
A2\t16\t1111111111001001\n\
A3\t16\t1111111111001010\n\
A4\t16\t1111111111001011\n\
A5\t16\t1111111111001100\n\
A6\t16\t1111111111001101\n\
A7\t16\t1111111111001110\n\
A8\t16\t1111111111001111\n\
A9\t16\t1111111111010000\n\
AA\t16\t1111111111010001\n\
B1\t9\t111111001\n\
B2\t16\t1111111111010010\n\
B3\t16\t1111111111010011\n\
B4\t16\t1111111111010100\n\
B5\t16\t1111111111010101\n\
B6\t16\t1111111111010110\n\
B7\t16\t1111111111010111\n\
B8\t16\t1111111111011000\n\
B9\t16\t1111111111011001\n\
BA\t16\t1111111111011010\n\
C1\t9\t111111010\n\
C2\t16\t1111111111011011\n\
C3\t16\t1111111111011100\n\
C4\t16\t1111111111011101\n\
C5\t16\t1111111111011110\n\
C6\t16\t1111111111011111\n\
C7\t16\t1111111111100000\n\
C8\t16\t1111111111100001\n\
C9\t16\t1111111111100010\n\
CA\t16\t1111111111100011\n\
D1\t11\t11111111001\n\
D2\t16\t1111111111100100\n\
D3\t16\t1111111111100101\n\
D4\t16\t1111111111100110\n\
D5\t16\t1111111111100111\n\
D6\t16\t1111111111101000\n\
D7\t16\t1111111111101001\n\
D8\t16\t1111111111101010\n\
D9\t16\t1111111111101011\n\
DA\t16\t1111111111101100\n\
E1\t14\t11111111100000\n\
E2\t16\t1111111111101101\n\
E3\t16\t1111111111101110\n\
E4\t16\t1111111111101111\n\
E5\t16\t1111111111110000\n\
E6\t16\t1111111111110001\n\
E7\t16\t1111111111110010\n\
E8\t16\t1111111111110011\n\
E9\t16\t1111111111110100\n\
EA\t16\t1111111111110101\n\
F0\t10\t1111111010\n\
F1\t15\t111111111000011\n\
F2\t16\t1111111111110110\n\
F3\t16\t1111111111110111\n\
F4\t16\t1111111111111000\n\
F5\t16\t1111111111111001\n\
F6\t16\t1111111111111010\n\
F7\t16\t1111111111111011\n\
F8\t16\t1111111111111100\n\
F9\t16\t1111111111111101\n\
FA\t16\t1111111111111110";

/// The numbers of codewords per length of the default luminance DC table.
pub const DEFAULT_LUMINANCE_DC_CODES: [u8; 16] = [
    0, 1, 5, 1, 1, 1, 1, 1, 1, 0, 0, 0, 0, 0, 0, 0,
];

/// The symbols of the default luminance DC table, in the order of their codewords.
pub const DEFAULT_LUMINANCE_DC_VALUES: [u8; 12] = [
    0, 1, 2, 3, 4, 5, 6, 7, 8, 9, 10, 11,
];

/// The default luminance DC table.
pub fn default_luminance_dc_huffman_table() -> (t: JpegHuffmanTable)
    ensures
        t.codes == DEFAULT_LUMINANCE_DC_CODES,
        t.values@ == DEFAULT_LUMINANCE_DC_VALUES@,
        t.wf(),
{
    let t = JpegHuffmanTable {
        codes: DEFAULT_LUMINANCE_DC_CODES,
        values: slice_to_vec(DEFAULT_LUMINANCE_DC_VALUES.as_slice()),
    };
    proof {
        reveal_with_fuel(count_upto, 17);
        lemma_codewords_len(t.codes@, 16);
    }
    t
}

/// The numbers of codewords per length of the default luminance AC table.
pub const DEFAULT_LUMINANCE_AC_CODES: [u8; 16] = [
    0, 2, 1, 3, 3, 2, 4, 3, 5, 5, 4, 4, 0, 0, 1, 125,
];

/// The symbols of the default luminance AC table, in the order of their codewords.
pub const DEFAULT_LUMINANCE_AC_VALUES: [u8; 162] = [
    1, 2, 3, 0, 4, 17, 5, 18, 33, 49, 65, 6, 19, 81, 97, 7,
    34, 113, 20, 50, 129, 145, 161, 8, 35, 66, 177, 193, 21, 82, 209, 240,
    36, 51, 98, 114, 130, 9, 10, 22, 23, 24, 25, 26, 37, 38, 39, 40,
    41, 42, 52, 53, 54, 55, 56, 57, 58, 67, 68, 69, 70, 71, 72, 73,
    74, 83, 84, 85, 86, 87, 88, 89, 90, 99, 100, 101, 102, 103, 104, 105,
    106, 115, 116, 117, 118, 119, 120, 121, 122, 131, 132, 133, 134, 135, 136, 137,
    138, 146, 147, 148, 149, 150, 151, 152, 153, 154, 162, 163, 164, 165, 166, 167,
    168, 169, 170, 178, 179, 180, 181, 182, 183, 184, 185, 186, 194, 195, 196, 197,
    198, 199, 200, 201, 202, 210, 211, 212, 213, 214, 215, 216, 217, 218, 225, 226,
    227, 228, 229, 230, 231, 232, 233, 234, 241, 242, 243, 244, 245, 246, 247, 248,
    249, 250,
];

/// The default luminance AC table.
pub fn default_luminance_ac_huffman_table() -> (t: JpegHuffmanTable)
    ensures
        t.codes == DEFAULT_LUMINANCE_AC_CODES,
        t.values@ == DEFAULT_LUMINANCE_AC_VALUES@,
        t.wf(),
{
    let t = JpegHuffmanTable {
        codes: DEFAULT_LUMINANCE_AC_CODES,
        values: slice_to_vec(DEFAULT_LUMINANCE_AC_VALUES.as_slice()),
    };
    proof {
        reveal_with_fuel(count_upto, 17);
        lemma_codewords_len(t.codes@, 16);
    }
    t
}

/// The numbers of codewords per length of the default chrominance DC table.
pub const DEFAULT_CHROMA_DC_CODES: [u8; 16] = [
    0, 3, 1, 1, 1, 1, 1, 1, 1, 1, 1, 0, 0, 0, 0, 0,
];

/// The symbols of the default chrominance DC table, in the order of their codewords.
pub const DEFAULT_CHROMA_DC_VALUES: [u8; 12] = [
    0, 1, 2, 3, 4, 5, 6, 7, 8, 9, 10, 11,
];

/// The default chrominance DC table.
pub fn default_chroma_dc_huffman_table() -> (t: JpegHuffmanTable)
    ensures
        t.codes == DEFAULT_CHROMA_DC_CODES,
        t.values@ == DEFAULT_CHROMA_DC_VALUES@,
        t.wf(),
{
    let t = JpegHuffmanTable {
        codes: DEFAULT_CHROMA_DC_CODES,
        values: slice_to_vec(DEFAULT_CHROMA_DC_VALUES.as_slice()),
    };
    proof {
        reveal_with_fuel(count_upto, 17);
        lemma_codewords_len(t.codes@, 16);
    }
    t
}

/// The numbers of codewords per length of the default chrominance AC table.
pub const DEFAULT_CHROMA_AC_CODES: [u8; 16] = [
    0, 2, 1, 2, 4, 4, 3, 4, 7, 5, 4, 4, 0, 1, 2, 119,
];

/// The symbols of the default chrominance AC table, in the order of their codewords.
pub const DEFAULT_CHROMA_AC_VALUES: [u8; 162] = [
    0, 1, 2, 3, 17, 4, 5, 33, 49, 6, 18, 65, 81, 7, 97, 113,
    19, 34, 50, 129, 8, 20, 66, 145, 161, 177, 193, 9, 35, 51, 82, 240,
    21, 98, 114, 209, 10, 22, 36, 52, 225, 37, 241, 23, 24, 25, 26, 38,
    39, 40, 41, 42, 53, 54, 55, 56, 57, 58, 67, 68, 69, 70, 71, 72,
    73, 74, 83, 84, 85, 86, 87, 88, 89, 90, 99, 100, 101, 102, 103, 104,
    105, 106, 115, 116, 117, 118, 119, 120, 121, 122, 130, 131, 132, 133, 134, 135,
    136, 137, 138, 146, 147, 148, 149, 150, 151, 152, 153, 154, 162, 163, 164, 165,
    166, 167, 168, 169, 170, 178, 179, 180, 181, 182, 183, 184, 185, 186, 194, 195,
    196, 197, 198, 199, 200, 201, 202, 210, 211, 212, 213, 214, 215, 216, 217, 218,
    226, 227, 228, 229, 230, 231, 232, 233, 234, 242, 243, 244, 245, 246, 247, 248,
    249, 250,
];

/// The default chrominance AC table.
pub fn default_chroma_ac_huffman_table() -> (t: JpegHuffmanTable)
    ensures
        t.codes == DEFAULT_CHROMA_AC_CODES,
        t.values@ == DEFAULT_CHROMA_AC_VALUES@,
        t.wf(),
{
    let t = JpegHuffmanTable {
        codes: DEFAULT_CHROMA_AC_CODES,
        values: slice_to_vec(DEFAULT_CHROMA_AC_VALUES.as_slice()),
    };
    proof {
        reveal_with_fuel(count_upto, 17);
        lemma_codewords_len(t.codes@, 16);
    }
    t
}

/// A symbol that the coding of AC coefficients of up to ten bits may need:
/// end of block, sixteen zeros, or a run below sixteen with a category from 1
/// to 10.
pub open spec fn is_ac_symbol(s: u8) -> bool {
    s == 0 || s == 0xF0 || (1 <= s % 16 <= 10)
}

/// The default luminance AC table has every symbol that AC coding may need.
pub proof fn lemma_luminance_ac_complete(s: u8)
    requires
        is_ac_symbol(s),
    ensures
        exists|k: int| 0 <= k < 162 && DEFAULT_LUMINANCE_AC_VALUES@[k] == s,
{
}

/// The default chrominance AC table has every symbol that AC coding may need.
pub proof fn lemma_chroma_ac_complete(s: u8)
    requires
        is_ac_symbol(s),
    ensures
        exists|k: int| 0 <= k < 162 && DEFAULT_CHROMA_AC_VALUES@[k] == s,
{
}

} // verus!
