use vstd::prelude::*;

verus! {

/// Number of entries in the named-color table.
pub const NAMED_COLOR_COUNT: usize = 141;

/// Name of the entry at position `i` of the named-color table.
#[verifier::opaque]
pub open spec fn entry_name(i: usize) -> Seq<char> {
    match i {
        0 => "Alice Blue"@,
        1 => "Antique White"@,
        2 => "Aqua"@,
        3 => "Aquamarine"@,
        4 => "Azure"@,
        5 => "Beige"@,
        6 => "Bisque"@,
        7 => "Black"@,
        8 => "Blanched Almond"@,
        9 => "Blue"@,
        10 => "Blue Violet"@,
        11 => "Brown"@,
        12 => "Burly Wood"@,
        13 => "Cadet Blue"@,
        14 => "Chartreuse"@,
        15 => "Chocolate"@,
        16 => "Coral"@,
        17 => "Cornflower Blue"@,
        18 => "Cornsilk"@,
        19 => "Crimson"@,
        20 => "Cyan"@,
        21 => "Dark Blue"@,
        22 => "Dark Cyan"@,
        23 => "Dark Golden Rod"@,
        24 => "Dark Gray"@,
        25 => "Dark Green"@,
        26 => "Dark Khaki"@,
        27 => "Dark Magenta"@,
        28 => "Dark Olive Green"@,
        29 => "Dark Orange"@,
        30 => "Dark Orchid"@,
        31 => "Dark Red"@,
        32 => "Dark Salmon"@,
        33 => "Dark Sea Green"@,
        34 => "Dark Slate Blue"@,
        35 => "Dark Slate Gray"@,
        36 => "Dark Turquoise"@,
        37 => "Dark Violet"@,
        38 => "Deep Pink"@,
        39 => "Deep Sky Blue"@,
        40 => "Dim Gray"@,
        41 => "Dodger Blue"@,
        42 => "Fire Brick"@,
        43 => "Floral White"@,
        44 => "Forest Green"@,
        45 => "Fuchsia"@,
        46 => "Gainsboro"@,
        47 => "Ghost White"@,
        48 => "Gold"@,
        49 => "Golden Rod"@,
        50 => "Gray"@,
        51 => "Green"@,
        52 => "Green Yellow"@,
        53 => "Honey Dew"@,
        54 => "Hot Pink"@,
        55 => "Indian Red"@,
        56 => "Indigo"@,
        57 => "Ivory"@,
        58 => "Khaki"@,
        59 => "Lavender"@,
        60 => "Lavender Blush"@,
        61 => "Lawn Green"@,
        62 => "Lemon Chiffon"@,
        63 => "Light Blue"@,
        64 => "Light Coral"@,
        65 => "Light Cyan"@,
        66 => "Light Golden Rod Yellow"@,
        67 => "Light Gray"@,
        68 => "Light Green"@,
        69 => "Light Pink"@,
        70 => "Light Salmon"@,
        71 => "Light Sea Green"@,
        72 => "Light Sky Blue"@,
        73 => "Light Slate Gray"@,
        74 => "Light Steel Blue"@,
        75 => "Light Yellow"@,
        76 => "Lime"@,
        77 => "Lime Green"@,
        78 => "Linen"@,
        79 => "Magenta"@,
        80 => "Maroon"@,
        81 => "Medium Aqua Marine"@,
        82 => "Medium Blue"@,
        83 => "Medium Orchid"@,
        84 => "Medium Purple"@,
        85 => "Medium Sea Green"@,
        86 => "Medium Slate Blue"@,
        87 => "Medium Spring Green"@,
        88 => "Medium Turquoise"@,
        89 => "Medium Violet Red"@,
        90 => "Midnight Blue"@,
        91 => "Mint Cream"@,
        92 => "Misty Rose"@,
        93 => "Moccasin"@,
        94 => "Navajo White"@,
        95 => "Navy"@,
        96 => "Old Lace"@,
        97 => "Olive"@,
        98 => "Olive Drab"@,
        99 => "Orange"@,
        100 => "Orange Red"@,
        101 => "Orchid"@,
        102 => "Pale Golden Rod"@,
        103 => "Pale Green"@,
        104 => "Pale Turquoise"@,
        105 => "Pale Violet Red"@,
        106 => "Papaya Whip"@,
        107 => "Peach Puff"@,
        108 => "Peru"@,
        109 => "Pink"@,
        110 => "Plum"@,
        111 => "Powder Blue"@,
        112 => "Purple"@,
        113 => "Rebecca Purple"@,
        114 => "Red"@,
        115 => "Rosy Brown"@,
        116 => "Royal Blue"@,
        117 => "Saddle Brown"@,
        118 => "Salmon"@,
        119 => "Sandy Brown"@,
        120 => "Sea Green"@,
        121 => "Sea Shell"@,
        122 => "Sienna"@,
        123 => "Silver"@,
        124 => "Sky Blue"@,
        125 => "Slate Blue"@,
        126 => "Slate Gray"@,
        127 => "Snow"@,
        128 => "Spring Green"@,
        129 => "Steel Blue"@,
        130 => "Tan"@,
        131 => "Teal"@,
        132 => "Thistle"@,
        133 => "Tomato"@,
        134 => "Turquoise"@,
        135 => "Violet"@,
        136 => "Wheat"@,
        137 => "White"@,
        138 => "White Smoke"@,
        139 => "Yellow"@,
        _ => "Yellow Green"@,
    }
}

/// Red, green and blue channels of the entry at position `i`.
#[verifier::opaque]
pub open spec fn entry_rgb(i: usize) -> (u8, u8, u8) {
    match i {
        0 => (240, 248, 255),
        1 => (250, 235, 215),
        2 => (0, 255, 255),
        3 => (127, 255, 212),
        4 => (240, 255, 255),
        5 => (245, 245, 220),
        6 => (255, 228, 196),
        7 => (0, 0, 0),
        8 => (255, 235, 205),
        9 => (0, 0, 255),
        10 => (138, 43, 226),
        11 => (165, 42, 42),
        12 => (222, 184, 135),
        13 => (95, 158, 160),
        14 => (127, 255, 0),
        15 => (210, 105, 30),
        16 => (255, 127, 80),
        17 => (100, 149, 237),
        18 => (255, 248, 220),
        19 => (220, 20, 60),
        20 => (0, 255, 255),
        21 => (0, 0, 139),
        22 => (0, 139, 139),
        23 => (184, 134, 11),
        24 => (169, 169, 169),
        25 => (0, 100, 0),
        26 => (189, 183, 107),
        27 => (139, 0, 139),
        28 => (85, 107, 47),
        29 => (255, 140, 0),
        30 => (153, 50, 204),
        31 => (139, 0, 0),
        32 => (233, 150, 122),
        33 => (143, 188, 143),
        34 => (72, 61, 139),
        35 => (47, 79, 79),
        36 => (0, 206, 209),
        37 => (148, 0, 211),
        38 => (255, 20, 147),
        39 => (0, 191, 255),
        40 => (105, 105, 105),
        41 => (30, 144, 255),
        42 => (178, 34, 34),
        43 => (255, 250, 240),
        44 => (34, 139, 34),
        45 => (255, 0, 255),
        46 => (220, 220, 220),
        47 => (248, 248, 255),
        48 => (255, 215, 0),
        49 => (218, 165, 32),
        50 => (128, 128, 128),
        51 => (0, 128, 0),
        52 => (173, 255, 47),
        53 => (240, 255, 240),
        54 => (255, 105, 180),
        55 => (205, 92, 92),
        56 => (75, 0, 130),
        57 => (255, 255, 240),
        58 => (240, 230, 140),
        59 => (230, 230, 250),
        60 => (255, 240, 245),
        61 => (124, 252, 0),
        62 => (255, 250, 205),
        63 => (173, 216, 230),
        64 => (240, 128, 128),
        65 => (224, 255, 255),
        66 => (250, 250, 210),
        67 => (211, 211, 211),
        68 => (144, 238, 144),
        69 => (255, 182, 193),
        70 => (255, 160, 122),
        71 => (32, 178, 170),
        72 => (135, 206, 250),
        73 => (119, 136, 153),
        74 => (176, 196, 222),
        75 => (255, 255, 224),
        76 => (0, 255, 0),
        77 => (50, 205, 50),
        78 => (250, 240, 230),
        79 => (255, 0, 255),
        80 => (128, 0, 0),
        81 => (102, 205, 170),
        82 => (0, 0, 205),
        83 => (186, 85, 211),
        84 => (147, 112, 219),
        85 => (60, 179, 113),
        86 => (123, 104, 238),
        87 => (0, 250, 154),
        88 => (72, 209, 204),
        89 => (199, 21, 133),
        90 => (25, 25, 112),
        91 => (245, 255, 250),
        92 => (255, 228, 225),
        93 => (255, 228, 181),
        94 => (255, 222, 173),
        95 => (0, 0, 128),
        96 => (253, 245, 230),
        97 => (128, 128, 0),
        98 => (107, 142, 35),
        99 => (255, 165, 0),
        100 => (255, 69, 0),
        101 => (218, 112, 214),
        102 => (238, 232, 170),
        103 => (152, 251, 152),
        104 => (175, 238, 238),
        105 => (219, 112, 147),
        106 => (255, 239, 213),
        107 => (255, 218, 185),
        108 => (205, 133, 63),
        109 => (255, 192, 203),
        110 => (221, 160, 221),
        111 => (176, 224, 230),
        112 => (128, 0, 128),
        113 => (102, 51, 153),
        114 => (255, 0, 0),
        115 => (188, 143, 143),
        116 => (65, 105, 225),
        117 => (139, 69, 19),
        118 => (250, 128, 114),
        119 => (244, 164, 96),
        120 => (46, 139, 87),
        121 => (255, 245, 238),
        122 => (160, 82, 45),
        123 => (192, 192, 192),
        124 => (135, 206, 235),
        125 => (106, 90, 205),
        126 => (112, 128, 144),
        127 => (255, 250, 250),
        128 => (0, 255, 127),
        129 => (70, 130, 180),
        130 => (210, 180, 140),
        131 => (0, 128, 128),
        132 => (216, 191, 216),
        133 => (255, 99, 71),
        134 => (64, 224, 208),
        135 => (238, 130, 238),
        136 => (245, 222, 179),
        137 => (255, 255, 255),
        138 => (245, 245, 245),
        139 => (255, 255, 0),
        _ => (154, 205, 50),
    }
}

/// The entry at position `i` of the read-only named-color table: its name
/// and its red, green and blue channels.  The order of the entries is the
/// order in which name lookups scan the table.
pub fn named_color(i: usize) -> (r: (&'static str, u8, u8, u8))
    requires
        i < NAMED_COLOR_COUNT,
    ensures
        r.0@ == entry_name(i),
        (r.1, r.2, r.3) == entry_rgb(i),
{
    proof {
        reveal(entry_name);
        reveal(entry_rgb);
    }
    match i {
        0 => ("Alice Blue", 240, 248, 255),
        1 => ("Antique White", 250, 235, 215),
        2 => ("Aqua", 0, 255, 255),
        3 => ("Aquamarine", 127, 255, 212),
        4 => ("Azure", 240, 255, 255),
        5 => ("Beige", 245, 245, 220),
        6 => ("Bisque", 255, 228, 196),
        7 => ("Black", 0, 0, 0),
        8 => ("Blanched Almond", 255, 235, 205),
        9 => ("Blue", 0, 0, 255),
        10 => ("Blue Violet", 138, 43, 226),
        11 => ("Brown", 165, 42, 42),
        12 => ("Burly Wood", 222, 184, 135),
        13 => ("Cadet Blue", 95, 158, 160),
        14 => ("Chartreuse", 127, 255, 0),
        15 => ("Chocolate", 210, 105, 30),
        16 => ("Coral", 255, 127, 80),
        17 => ("Cornflower Blue", 100, 149, 237),
        18 => ("Cornsilk", 255, 248, 220),
        19 => ("Crimson", 220, 20, 60),
        20 => ("Cyan", 0, 255, 255),
        21 => ("Dark Blue", 0, 0, 139),
        22 => ("Dark Cyan", 0, 139, 139),
        23 => ("Dark Golden Rod", 184, 134, 11),
        24 => ("Dark Gray", 169, 169, 169),
        25 => ("Dark Green", 0, 100, 0),
        26 => ("Dark Khaki", 189, 183, 107),
        27 => ("Dark Magenta", 139, 0, 139),
        28 => ("Dark Olive Green", 85, 107, 47),
        29 => ("Dark Orange", 255, 140, 0),
        30 => ("Dark Orchid", 153, 50, 204),
        31 => ("Dark Red", 139, 0, 0),
        32 => ("Dark Salmon", 233, 150, 122),
        33 => ("Dark Sea Green", 143, 188, 143),
        34 => ("Dark Slate Blue", 72, 61, 139),
        35 => ("Dark Slate Gray", 47, 79, 79),
        36 => ("Dark Turquoise", 0, 206, 209),
        37 => ("Dark Violet", 148, 0, 211),
        38 => ("Deep Pink", 255, 20, 147),
        39 => ("Deep Sky Blue", 0, 191, 255),
        40 => ("Dim Gray", 105, 105, 105),
        41 => ("Dodger Blue", 30, 144, 255),
        42 => ("Fire Brick", 178, 34, 34),
        43 => ("Floral White", 255, 250, 240),
        44 => ("Forest Green", 34, 139, 34),
        45 => ("Fuchsia", 255, 0, 255),
        46 => ("Gainsboro", 220, 220, 220),
        47 => ("Ghost White", 248, 248, 255),
        48 => ("Gold", 255, 215, 0),
        49 => ("Golden Rod", 218, 165, 32),
        50 => ("Gray", 128, 128, 128),
        51 => ("Green", 0, 128, 0),
        52 => ("Green Yellow", 173, 255, 47),
        53 => ("Honey Dew", 240, 255, 240),
        54 => ("Hot Pink", 255, 105, 180),
        55 => ("Indian Red", 205, 92, 92),
        56 => ("Indigo", 75, 0, 130),
        57 => ("Ivory", 255, 255, 240),
        58 => ("Khaki", 240, 230, 140),
        59 => ("Lavender", 230, 230, 250),
        60 => ("Lavender Blush", 255, 240, 245),
        61 => ("Lawn Green", 124, 252, 0),
        62 => ("Lemon Chiffon", 255, 250, 205),
        63 => ("Light Blue", 173, 216, 230),
        64 => ("Light Coral", 240, 128, 128),
        65 => ("Light Cyan", 224, 255, 255),
        66 => ("Light Golden Rod Yellow", 250, 250, 210),
        67 => ("Light Gray", 211, 211, 211),
        68 => ("Light Green", 144, 238, 144),
        69 => ("Light Pink", 255, 182, 193),
        70 => ("Light Salmon", 255, 160, 122),
        71 => ("Light Sea Green", 32, 178, 170),
        72 => ("Light Sky Blue", 135, 206, 250),
        73 => ("Light Slate Gray", 119, 136, 153),
        74 => ("Light Steel Blue", 176, 196, 222),
        75 => ("Light Yellow", 255, 255, 224),
        76 => ("Lime", 0, 255, 0),
        77 => ("Lime Green", 50, 205, 50),
        78 => ("Linen", 250, 240, 230),
        79 => ("Magenta", 255, 0, 255),
        80 => ("Maroon", 128, 0, 0),
        81 => ("Medium Aqua Marine", 102, 205, 170),
        82 => ("Medium Blue", 0, 0, 205),
        83 => ("Medium Orchid", 186, 85, 211),
        84 => ("Medium Purple", 147, 112, 219),
        85 => ("Medium Sea Green", 60, 179, 113),
        86 => ("Medium Slate Blue", 123, 104, 238),
        87 => ("Medium Spring Green", 0, 250, 154),
        88 => ("Medium Turquoise", 72, 209, 204),
        89 => ("Medium Violet Red", 199, 21, 133),
        90 => ("Midnight Blue", 25, 25, 112),
        91 => ("Mint Cream", 245, 255, 250),
        92 => ("Misty Rose", 255, 228, 225),
        93 => ("Moccasin", 255, 228, 181),
        94 => ("Navajo White", 255, 222, 173),
        95 => ("Navy", 0, 0, 128),
        96 => ("Old Lace", 253, 245, 230),
        97 => ("Olive", 128, 128, 0),
        98 => ("Olive Drab", 107, 142, 35),
        99 => ("Orange", 255, 165, 0),
        100 => ("Orange Red", 255, 69, 0),
        101 => ("Orchid", 218, 112, 214),
        102 => ("Pale Golden Rod", 238, 232, 170),
        103 => ("Pale Green", 152, 251, 152),
        104 => ("Pale Turquoise", 175, 238, 238),
        105 => ("Pale Violet Red", 219, 112, 147),
        106 => ("Papaya Whip", 255, 239, 213),
        107 => ("Peach Puff", 255, 218, 185),
        108 => ("Peru", 205, 133, 63),
        109 => ("Pink", 255, 192, 203),
        110 => ("Plum", 221, 160, 221),
        111 => ("Powder Blue", 176, 224, 230),
        112 => ("Purple", 128, 0, 128),
        113 => ("Rebecca Purple", 102, 51, 153),
        114 => ("Red", 255, 0, 0),
        115 => ("Rosy Brown", 188, 143, 143),
        116 => ("Royal Blue", 65, 105, 225),
        117 => ("Saddle Brown", 139, 69, 19),
        118 => ("Salmon", 250, 128, 114),
        119 => ("Sandy Brown", 244, 164, 96),
        120 => ("Sea Green", 46, 139, 87),
        121 => ("Sea Shell", 255, 245, 238),
        122 => ("Sienna", 160, 82, 45),
        123 => ("Silver", 192, 192, 192),
        124 => ("Sky Blue", 135, 206, 235),
        125 => ("Slate Blue", 106, 90, 205),
        126 => ("Slate Gray", 112, 128, 144),
        127 => ("Snow", 255, 250, 250),
        128 => ("Spring Green", 0, 255, 127),
        129 => ("Steel Blue", 70, 130, 180),
        130 => ("Tan", 210, 180, 140),
        131 => ("Teal", 0, 128, 128),
        132 => ("Thistle", 216, 191, 216),
        133 => ("Tomato", 255, 99, 71),
        134 => ("Turquoise", 64, 224, 208),
        135 => ("Violet", 238, 130, 238),
        136 => ("Wheat", 245, 222, 179),
        137 => ("White", 255, 255, 255),
        138 => ("White Smoke", 245, 245, 245),
        139 => ("Yellow", 255, 255, 0),
        _ => ("Yellow Green", 154, 205, 50),
    }
}

} // verus!
