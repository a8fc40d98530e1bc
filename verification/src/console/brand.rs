//! What the console looks like: the name it goes by, its marks, and its
//! colours.
//!
//! The console serves an application that calls itself something else and
//! draws itself in another colour. Neither is a property of the code: the
//! name, the three images and the favicon come out of the `branding` block in
//! the metadata the server injects, and the colours are a stylesheet. So this
//! is where this console's own are, and the application is untouched.
//!
//! Colours are moved in whole numbers, so a colour that lies on the edge of
//! the band it is looked for in is always on the same side of it.

use vstd::prelude::*;

use crate::json::{field, fields, no_fields, object, text, Json, JsonV};
use crate::list::{put, with};
use crate::number::is_digit;
use crate::text::{chars_of, dec, decimal, lower_char, same};

verus! {

/// The brand's green, as the logo draws it. Bright enough to be the mark and
/// too bright to be text: 2.3 against white.
pub const ACCENT: &'static str = "#00C566";

/// The same green taken down until text in it can be read on white -- 5.8
/// against it, past what WCAG asks for body text. This is what a link, a
/// filled button and a selected tab are.
pub const PRIMARY: &'static str = "#00753C";

/// One step further down, for the state a pointer is over.
pub const PRIMARY_DARK: &'static str = "#005C2F";

/// The deep green of the wordmark: headers, and the surfaces a dark theme
/// draws behind them.
pub const DEEP: &'static str = "#004628";

/// The palest green in the logo, for a tint behind a selected row.
pub const TINT: &'static str = "#E1F4E9";

/// What the console calls itself.
pub const TITLE: &'static str = "VeloSearch";

/// The path everything here is served under, inside the console's own `/ui`.
pub const FOLDER: &'static str = "/ui/velosearch";

// ---- the marks -----------------------------------------------------------------

/// Whether bytes are an image of the kind the marks are.
pub open spec fn is_png(b: Seq<u8>) -> bool {
    b.len() >= 8 && b.take(8) == seq![0x89u8, 0x50u8, 0x4eu8, 0x47u8, 0x0du8, 0x0au8, 0x1au8, 0x0au8]
}

fn png(b: &Vec<u8>) -> (r: bool)
    ensures
        r == is_png(b@),
{
    if b.len() < 8 {
        return false;
    }
    let r = b[0] == 0x89 && b[1] == 0x50 && b[2] == 0x4e && b[3] == 0x47 && b[4] == 0x0d && b[5]
        == 0x0a && b[6] == 0x1a && b[7] == 0x0a;
    proof {
        let sig = seq![0x89u8, 0x50u8, 0x4eu8, 0x47u8, 0x0du8, 0x0au8, 0x1au8, 0x0au8];
        if r {
            assert(b@.take(8) =~= sig);
        } else {
            assert(b@.take(8)[0] == b@[0] && b@.take(8)[1] == b@[1] && b@.take(8)[2] == b@[2]
                && b@.take(8)[3] == b@[3] && b@.take(8)[4] == b@[4] && b@.take(8)[5] == b@[5]
                && b@.take(8)[6] == b@[6] && b@.take(8)[7] == b@[7]);
            if is_png(b@) {
                assert(sig[0] == 0x89 && sig[1] == 0x50 && sig[2] == 0x4e && sig[3] == 0x47
                    && sig[4] == 0x0d && sig[5] == 0x0a && sig[6] == 0x1a && sig[7] == 0x0a);
            }
        }
    }
    r
}

/// The marks: `logo` is the wordmark, which the expanded header shows; `mark`
/// is the V alone, for the collapsed navigation and the loading screen;
/// `favicon` is the mark again, at the size a tab draws. Every one is an image.
pub struct Marks {
    logo: Vec<u8>,
    logo_dark: Vec<u8>,
    mark: Vec<u8>,
    favicon: Vec<u8>,
}

impl Marks {
    #[verifier::type_invariant]
    closed spec fn images(self) -> bool {
        is_png(self.logo@) && is_png(self.logo_dark@) && is_png(self.mark@) && is_png(
            self.favicon@,
        )
    }

    /// The bytes of a mark, by the name a URL gives it.
    pub closed spec fn bytes(self, name: Seq<char>) -> Option<Seq<u8>> {
        if name == "logo.png"@ {
            Some(self.logo@)
        } else if name == "logo-dark.png"@ {
            Some(self.logo_dark@)
        } else if name == "mark.png"@ {
            Some(self.mark@)
        } else if name == "favicon.png"@ {
            Some(self.favicon@)
        } else {
            None
        }
    }

    /// The marks, if every one of them is an image rather than whatever was in
    /// the directory.
    pub fn new(logo: Vec<u8>, logo_dark: Vec<u8>, mark: Vec<u8>, favicon: Vec<u8>) -> (r: Option<
        Marks,
    >)
        ensures
            match r {
                Some(m) => is_png(logo@) && is_png(logo_dark@) && is_png(mark@) && is_png(favicon@)
                    && m.bytes("logo.png"@) == Some(logo@) && m.bytes("logo-dark.png"@) == Some(
                    logo_dark@,
                ) && m.bytes("mark.png"@) == Some(mark@) && m.bytes("favicon.png"@) == Some(
                    favicon@,
                ) && forall|name: Seq<char>|
                    #![trigger m.bytes(name)]
                    m.bytes(name) is Some <==> is_mark(name),
                None => !(is_png(logo@) && is_png(logo_dark@) && is_png(mark@) && is_png(favicon@)),
            },
    {
        if png(&logo) && png(&logo_dark) && png(&mark) && png(&favicon) {
            proof {
                lemma_names();
            }
            Some(Marks { logo, logo_dark, mark, favicon })
        } else {
            None
        }
    }
}

/// The names the marks go by.
pub open spec fn is_mark(name: Seq<char>) -> bool {
    name == "logo.png"@ || name == "logo-dark.png"@ || name == "mark.png"@ || name
        == "favicon.png"@
}

proof fn lemma_names()
    ensures
        "logo.png"@ != "logo-dark.png"@,
        "logo.png"@ != "mark.png"@,
        "logo.png"@ != "favicon.png"@,
        "logo-dark.png"@ != "mark.png"@,
        "logo-dark.png"@ != "favicon.png"@,
        "mark.png"@ != "favicon.png"@,
{
    reveal_strlit("logo.png");
    reveal_strlit("logo-dark.png");
    reveal_strlit("mark.png");
    reveal_strlit("favicon.png");
    assert("logo.png"@.len() == 8);
    assert("logo-dark.png"@.len() == 13);
    assert("mark.png"@.len() == 8);
    assert("favicon.png"@.len() == 11);
    assert("logo.png"@[0] == 'l');
    assert("mark.png"@[0] == 'm');
}

/// One of the brand's files, by the name a URL gives it: an image, and the
/// kind it is served as.
pub fn asset<'a>(marks: &'a Marks, name: &str) -> (r: Option<(&'a Vec<u8>, &'static str)>)
    ensures
        match r {
            Some((bytes, kind)) => marks.bytes(name@) == Some(bytes@) && kind@ == "image/png"@
                && is_png(bytes@),
            None => marks.bytes(name@) is None,
        },
{
    proof {
        use_type_invariant(marks);
    }
    if same(name, "logo.png") {
        Some((&marks.logo, "image/png"))
    } else if same(name, "logo-dark.png") {
        Some((&marks.logo_dark, "image/png"))
    } else if same(name, "mark.png") {
        Some((&marks.mark, "image/png"))
    } else if same(name, "favicon.png") {
        Some((&marks.favicon, "image/png"))
    } else {
        None
    }
}

/// Whether a console draws itself in this brand: unless an operator says
/// otherwise.
pub open spec fn is_wanted(said: Option<Seq<char>>) -> bool {
    !(said == Some("opensearch"@) || said == Some("off"@) || said == Some("none"@))
}

/// Whether a console draws itself in this brand, by what
/// `VELOSEARCH_CONSOLE_BRANDING` says.
pub fn wanted(said: &Option<String>) -> (r: bool)
    ensures
        r == is_wanted(said.deep_view()),
{
    match said {
        Some(s) => !(same(s.as_str(), "opensearch") || same(s.as_str(), "off") || same(
            s.as_str(),
            "none",
        )),
        None => true,
    }
}

// ---- the stylesheet ------------------------------------------------------------

/// The stylesheet that paints what the theme does not derive.
pub open spec fn sheet() -> Seq<char> {
    (":root {--velo-accent: "@ + ACCENT@ + ";--velo-primary: "@ + PRIMARY@ + ";--velo-primary-dark: "@ + PRIMARY_DARK@ + ";--velo-deep: "@ + DEEP@)
        + (";--velo-tint: "@ + TINT@ + ";--euiColorPrimary: "@ + PRIMARY@ + ";--euiColorPrimaryText: "@ + PRIMARY@ + ";--euiColorAccent: "@ + ACCENT@)
        + (";--euiColorAccentText: "@ + PRIMARY@ + ";--euiLinkColor: "@ + PRIMARY@ + ";--euiColorFocusBackground: "@ + TINT@ + ";}/* a dark page reads the bright green well and the dark one not at all, so the two swap there */.theme-dark, [data-theme=\"dark\"], .ouiTheme--dark, .euiTheme--dark {--euiColorPrimary: "@ + ACCENT@)
        + (";--euiColorPrimaryText: "@ + ACCENT@ + ";--euiLinkColor: "@ + ACCENT@ + ";--euiColorFocusBackground: "@ + DEEP@ + ";}/* the bar across the top, which the theme paints rather than derives */.headerGlobalNav .ouiHeader, .headerGlobalNav .euiHeader,.ouiHeader--dark, .euiHeader--dark {background-color: "@ + DEEP@)
        + (";border-bottom-color: "@ + PRIMARY_DARK@ + ";}.ouiHeaderLogo__text, .euiHeaderLogo__text { color: "@ + TINT@ + "; }/* what a caller presses, and what tells them where they are */.ouiButton--primary.ouiButton--fill, .euiButton--primary.euiButton--fill,.ouiButtonIcon--primary.ouiButtonIcon--fill,.euiButtonIcon--primary.euiButtonIcon--fill {background-color: "@ + PRIMARY@ + ";border-color: "@ + PRIMARY@)
        + (";color: #FFFFFF;}.ouiButton--primary.ouiButton--fill:hover,.euiButton--primary.euiButton--fill:hover {background-color: "@ + PRIMARY_DARK@ + ";border-color: "@ + PRIMARY_DARK@ + ";}.ouiTab-isSelected, .euiTab-isSelected {color: "@ + PRIMARY@ + ";box-shadow: inset 0 -2px 0 "@ + ACCENT@)
        + (";}.ouiLink, .euiLink { color: "@ + PRIMARY@ + "; }.ouiProgress__bar, .euiProgress__bar { background-color: "@ + ACCENT@ + "; }.ouiLoadingSpinner, .euiLoadingSpinner {border-color: "@ + TINT@ + " "@ + TINT@)
        + (" "@ + ACCENT@ + " "@ + ACCENT@ + ";}/* the page that is drawn before the application has booted */.osdWelcomeView { color: "@ + DEEP@ + "; }.osdProgress { background-color: "@ + TINT@)
        + ("; }.osdProgress:before { background-color: "@ + ACCENT@ + "; }\n"@)
}

/// The stylesheet that paints what the theme does not derive.
///
/// [`recoloured`] moves the theme itself, which is where the application gets
/// almost all of its colour. What is left over is the handful of surfaces a
/// distribution paints outside the theme -- the bar across the top, the page
/// drawn before the application has booted -- and the few custom properties
/// the built theme really does declare. Everything is additive and this sheet
/// is last, so the worst a mismatch can do is leave a surface the colour it
/// already was.
pub fn stylesheet() -> (r: String)
    ensures
        r@ == sheet(),
{
    let mut s = ":root {--velo-accent: ".to_owned().concat(ACCENT).concat(";--velo-primary: ").concat(PRIMARY).concat(";--velo-primary-dark: ").concat(PRIMARY_DARK).concat(";--velo-deep: ").concat(DEEP);
    s = s.concat(";--velo-tint: ".to_owned().concat(TINT).concat(";--euiColorPrimary: ").concat(PRIMARY).concat(";--euiColorPrimaryText: ").concat(PRIMARY).concat(";--euiColorAccent: ").concat(ACCENT).as_str());
    s = s.concat(";--euiColorAccentText: ".to_owned().concat(PRIMARY).concat(";--euiLinkColor: ").concat(PRIMARY).concat(";--euiColorFocusBackground: ").concat(TINT).concat(";}/* a dark page reads the bright green well and the dark one not at all, so the two swap there */.theme-dark, [data-theme=\"dark\"], .ouiTheme--dark, .euiTheme--dark {--euiColorPrimary: ").concat(ACCENT).as_str());
    s = s.concat(";--euiColorPrimaryText: ".to_owned().concat(ACCENT).concat(";--euiLinkColor: ").concat(ACCENT).concat(";--euiColorFocusBackground: ").concat(DEEP).concat(";}/* the bar across the top, which the theme paints rather than derives */.headerGlobalNav .ouiHeader, .headerGlobalNav .euiHeader,.ouiHeader--dark, .euiHeader--dark {background-color: ").concat(DEEP).as_str());
    s = s.concat(";border-bottom-color: ".to_owned().concat(PRIMARY_DARK).concat(";}.ouiHeaderLogo__text, .euiHeaderLogo__text { color: ").concat(TINT).concat("; }/* what a caller presses, and what tells them where they are */.ouiButton--primary.ouiButton--fill, .euiButton--primary.euiButton--fill,.ouiButtonIcon--primary.ouiButtonIcon--fill,.euiButtonIcon--primary.euiButtonIcon--fill {background-color: ").concat(PRIMARY).concat(";border-color: ").concat(PRIMARY).as_str());
    s = s.concat(";color: #FFFFFF;}.ouiButton--primary.ouiButton--fill:hover,.euiButton--primary.euiButton--fill:hover {background-color: ".to_owned().concat(PRIMARY_DARK).concat(";border-color: ").concat(PRIMARY_DARK).concat(";}.ouiTab-isSelected, .euiTab-isSelected {color: ").concat(PRIMARY).concat(";box-shadow: inset 0 -2px 0 ").concat(ACCENT).as_str());
    s = s.concat(";}.ouiLink, .euiLink { color: ".to_owned().concat(PRIMARY).concat("; }.ouiProgress__bar, .euiProgress__bar { background-color: ").concat(ACCENT).concat("; }.ouiLoadingSpinner, .euiLoadingSpinner {border-color: ").concat(TINT).concat(" ").concat(TINT).as_str());
    s = s.concat(" ".to_owned().concat(ACCENT).concat(" ").concat(ACCENT).concat(";}/* the page that is drawn before the application has booted */.osdWelcomeView { color: ").concat(DEEP).concat("; }.osdProgress { background-color: ").concat(TINT).as_str());
    s = s.concat("; }.osdProgress:before { background-color: ".to_owned().concat(ACCENT).concat("; }\n").as_str());
    s
}

// ---- colours -------------------------------------------------------------------

/// A colour: how much red, green and blue.
pub type Colour = (u8, u8, u8);

/// How bright a channel's value is, as WCAG defines it: in parts of two to
/// the fortieth.
pub const LINEAR: [u64; 256] = [
    0, 333731448, 667462896, 1001194343, 1334925791, 1668657239, 2002388687, 2336120134,
    2669851582, 3003583030, 3337314478, 3679554985, 4042362552, 4425223160, 4828441583, 5252315897,
    5697137864, 6163193269, 6650762243, 7160119548, 7691534842, 8245272929, 8821593979, 9420753745,
    10043003752, 10688591480, 11357760534, 12050750802, 12767798600, 13509136813, 14274995024, 15065599635,
    15881173984, 16721938449, 17588110557, 18479905073, 19397534097, 20341207148, 21311131246, 22307510992,
    23330548638, 24380444163, 25457395335, 26561597777, 27693245027, 28852528600, 30039638038, 31254760967,
    32498083145, 33769788513, 35070059244, 36399075779, 37757016882, 39144059669, 40560379658, 42006150801,
    43481545522, 44986734752, 46521887965, 48087173209, 49682757137, 51308805039, 52965480869, 54652947276,
    56371365632, 58120896054, 59901697433, 61713927459, 63557742644, 65433298344, 67340748783, 69280247076,
    71251945247, 73255994250, 75292543993, 77361743350, 79463740186, 81598681373, 83766712805, 85967979421,
    88202625214, 90470793254, 92772625700, 95108263817, 97477847989, 99881517733, 102319411719, 104791667775,
    107298422906, 109839813308, 112415974374, 115027040715, 117673146165, 120354423797, 123071005932, 125823024152,
    128610609309, 131433891539, 134293000269, 137188064227, 140119211456, 143086569319, 146090264512, 149130423070,
    152207170380, 155320631187, 158470929602, 161658189114, 164882532596, 168144082311, 171442959925, 174779286510,
    178153182556, 181564767975, 185014162107, 188501483734, 192026851080, 195590381821, 199192193090, 202832401487,
    206511123082, 210228473424, 213984567543, 217779519962, 221613444698, 225486455271, 229398664708, 233350185548,
    237341129853, 241371609204, 245441734715, 249551617033, 253701366346, 257891092388, 262120904440, 266390911341,
    270701221489, 275051942845, 279443182940, 283875048880, 288347647346, 292861084604, 297415466507, 302010898497,
    306647485613, 311325332493, 316044543378, 320805222118, 325607472172, 330451396616, 335337098144, 340264679073,
    345234241347, 350245886539, 355299715857, 360395830143, 365534329885, 370715315209, 375938885891, 381205141359,
    386514180693, 391866102630, 397261005566, 402698987564, 408180146350, 413704579320, 419272383544, 424883655764,
    430538492403, 436236989564, 441979243033, 447765348284, 453595400479, 459469494472, 465387724811, 471350185744,
    477356971215, 483408174873, 489503890070, 495644209867, 501829227032, 508059034048, 514333723111, 520653386133,
    527018114747, 533428000306, 539883133888, 546383606295, 552929508058, 559520929438, 566157960429, 572840690758,
    579569209890, 586343607028, 593163971115, 600030390838, 606942954627, 613901750660, 620906866861, 627958390908,
    635056410228, 642201012004, 649392283174, 656630310435, 663915180240, 671246978809, 678625792120, 686051705918,
    693524805715, 701045176790, 708612904192, 716228072742, 723890767034, 731601071436, 739359070093, 747164846929,
    755018485646, 762920069726, 770869682436, 778867406826, 786913325731, 795007521773, 803150077363, 811341074703,
    819580595783, 827868722389, 836205536099, 844591118288, 853025550127, 861508912585, 870041286431, 878622752234,
    887253390367, 895933281005, 904662504127, 913441139520, 922269266776, 931146965297, 940074314295, 949051392792,
    958078279621, 967155053430, 976281792682, 985458575654, 994685480441, 1003962584953, 1013289966924, 1022667703904,
    1032095873267, 1041574552206, 1051103817742, 1060683746716, 1070314415797, 1079995901481, 1089728280090, 1099511627776,
];

/// A colour's relative luminance, in ten thousandths of the parts a channel
/// is counted in.
pub open spec fn luminance(r: int, g: int, b: int) -> int {
    2126 * LINEAR[r] + 7152 * LINEAR[g] + 722 * LINEAR[b]
}

fn luminance_of(c: Colour) -> (n: u128)
    ensures
        n == luminance(c.0 as int, c.1 as int, c.2 as int),
{
    2126 * LINEAR[c.0 as usize] as u128 + 7152 * LINEAR[c.1 as usize] as u128 + 722
        * LINEAR[c.2 as usize] as u128
}

pub open spec fn smaller(a: int, b: int) -> int {
    if a <= b {
        a
    } else {
        b
    }
}

/// The span between a blue's strongest channel and its weakest.
pub open spec fn span(c: Colour) -> int {
    c.2 - smaller(c.0 as int, c.1 as int)
}

/// Twice a blue's lightness, of 510.
pub open spec fn lights(c: Colour) -> int {
    c.2 + smaller(c.0 as int, c.1 as int)
}

/// The widest span a colour of a lightness can have.
pub open spec fn widest(lights: int) -> int {
    if lights <= 255 {
        lights
    } else {
        510 - lights
    }
}

/// Whether a colour is a theme's primary blue.
///
/// Its hue is between 195 and 212 degrees: measured, every shade of the
/// primary across the stylesheets a distribution ships falls between 197 and
/// 210, and a wider band starts catching colours that are not the primary at
/// all. It is at least 0.55 saturated -- the colour of body text on the dark
/// themes is 0.26, and the palest real primary is 0.56 -- and it is between
/// 0.12 and 0.80 light, before a colour is really black or really white.
pub open spec fn is_primary(c: Colour) -> bool {
    &&& c.2 > c.0
    &&& c.2 > c.1
    // 60 * ((r - g) / span + 4) lies in 195..=212
    &&& 4 * (c.0 - c.1) >= -3 * span(c)
    &&& 15 * (c.0 - c.1) <= -7 * span(c)
    &&& 20 * span(c) >= 11 * widest(lights(c))
    &&& 62 <= lights(c) <= 408
}

fn primary(c: Colour) -> (r: bool)
    ensures
        r == is_primary(c),
{
    let red: i64 = c.0 as i64;
    let green: i64 = c.1 as i64;
    let blue: i64 = c.2 as i64;
    let low: i64 = if red <= green {
        red
    } else {
        green
    };
    let span: i64 = blue - low;
    let lights: i64 = blue + low;
    let widest: i64 = if lights <= 255 {
        lights
    } else {
        510 - lights
    };
    blue > red && blue > green && 4 * (red - green) + 3 * span >= 0 && 15 * (red - green) + 7
        * span <= 0 && 20 * span >= 11 * widest && 62 <= lights && lights <= 408
}

/// How finely a lightness is searched for: in parts of two to the twenty-fifth.
pub const FINE: u64 = 0x200_0000;

/// A part of a whole as the value of a channel, rounded.
pub open spec fn channel_of(n: int, d: int) -> int {
    smaller((510 * n + d) / (2 * d), 255)
}

/// The colour of the brand's hue, which is 151 degrees, with the saturation
/// `s / d`, at a lightness of `k` parts of two to the twenty-fifth.
pub open spec fn green_at(k: int, s: int, d: int) -> (int, int, int) {
    let t = smaller(k, FINE - k);
    (
        channel_of(k * d - t * s, FINE * d),
        channel_of(k * d + t * s, FINE * d),
        channel_of(30 * (k * d) + t * s, 30 * (FINE * d)),
    )
}

proof fn lemma_products(k: int, t: int, s: int, d: int)
    requires
        0 <= t <= k <= 0x200_0000,
        0 <= s <= d <= 255,
        d > 0,
    ensures
        0 <= t * s <= k * d <= 0x200_0000 * 255,
        0 < 0x200_0000 * d <= 0x200_0000 * 255,
{
    assert(t * s <= k * d) by (nonlinear_arith)
        requires
            0 <= t <= k,
            0 <= s <= d,
    ;
    assert(k * d <= 0x200_0000 * 255) by (nonlinear_arith)
        requires
            0 <= k <= 0x200_0000,
            0 <= d <= 255,
    ;
    assert(0 <= t * s) by (nonlinear_arith)
        requires
            0 <= t,
            0 <= s,
    ;
}

fn channel(n: u64, d: u64) -> (r: u8)
    requires
        n <= 0x100_0000_0000,
        0 < d <= 0x100_0000_0000,
    ensures
        r == channel_of(n as int, d as int),
{
    let v: u64 = (510 * n + d) / (2 * d);
    if v <= 255 {
        v as u8
    } else {
        255
    }
}

fn green(k: u64, s: u64, d: u64) -> (r: Colour)
    requires
        k <= FINE,
        s <= d <= 255,
        d > 0,
    ensures
        (r.0 as int, r.1 as int, r.2 as int) == green_at(k as int, s as int, d as int),
{
    let t: u64 = if k <= FINE - k {
        k
    } else {
        FINE - k
    };
    proof {
        lemma_products(k as int, t as int, s as int, d as int);
    }
    let kd: u64 = k * d;
    let ts: u64 = t * s;
    let whole: u64 = FINE * d;
    (channel(kd - ts, whole), channel(kd + ts, whole), channel(30 * kd + ts, 30 * whole))
}

/// How bright the brand's colour is at a lightness.
pub open spec fn brightness(k: int, s: int, d: int) -> int {
    let c = green_at(k, s, d);
    luminance(c.0, c.1, c.2)
}

/// The lightnesses a brightness lies between, after a number of halvings.
pub open spec fn narrowed(want: int, s: int, d: int, low: int, high: int, n: nat) -> (int, int)
    decreases n,
{
    if n == 0 {
        (low, high)
    } else {
        let middle = (low + high) / 2;
        if brightness(middle, s, d) < want {
            narrowed(want, s, d, middle, high, (n - 1) as nat)
        } else {
            narrowed(want, s, d, low, middle, (n - 1) as nat)
        }
    }
}

/// Where the primary blue goes: the same saturation on the brand's hue, taken
/// up or down until it is exactly as bright as what it replaces. Any other
/// colour stays where it is.
pub open spec fn moved_to(c: Colour) -> Option<(int, int, int)> {
    if !is_primary(c) {
        None
    } else {
        let s = span(c);
        let d = widest(lights(c));
        let (low, high) = narrowed(
            luminance(c.0 as int, c.1 as int, c.2 as int),
            s,
            d,
            0,
            FINE as int,
            24,
        );
        Some(green_at((low + high) / 2, s, d))
    }
}

/// Where a colour goes, or `None` if it is not the primary blue and so stays
/// where it is.
pub fn moved(c: Colour) -> (r: Option<Colour>)
    ensures
        match moved_to(c) {
            Some(m) => r matches Some(n) && (n.0 as int, n.1 as int, n.2 as int) == m,
            None => r is None,
        },
{
    if !primary(c) {
        return None;
    }
    let low_channel: u64 = if c.0 <= c.1 {
        c.0 as u64
    } else {
        c.1 as u64
    };
    let s: u64 = c.2 as u64 - low_channel;
    let l: u64 = c.2 as u64 + low_channel;
    let d: u64 = if l <= 255 {
        l
    } else {
        510 - l
    };
    let want: u128 = luminance_of(c);
    let ghost whole = narrowed(want as int, s as int, d as int, 0, FINE as int, 24);
    let mut low: u64 = 0;
    let mut high: u64 = FINE;
    for i in 0..24u64
        invariant
            low <= high <= FINE,
            s <= d <= 255,
            d > 0,
            whole == narrowed(
                want as int,
                s as int,
                d as int,
                low as int,
                high as int,
                (24 - i) as nat,
            ),
    {
        let middle: u64 = (low + high) / 2;
        let m = green(middle, s, d);
        if luminance_of(m) < want {
            low = middle;
        } else {
            high = middle;
        }
    }
    Some(green((low + high) / 2, s, d))
}

// ---- colours in a stylesheet ---------------------------------------------------

/// The value of a hexadecimal digit, none when it is no digit.
pub open spec fn hex_value(c: char) -> Option<int> {
    if '0' <= c && c <= '9' {
        Some(c as u32 - 48)
    } else if 'a' <= c && c <= 'f' {
        Some(c as u32 - 87)
    } else if 'A' <= c && c <= 'F' {
        Some(c as u32 - 55)
    } else {
        None
    }
}

fn hex_of(c: char) -> (r: Option<u8>)
    ensures
        match hex_value(c) {
            Some(n) => r matches Some(m) && m == n && m < 16,
            None => r is None,
        },
{
    if '0' <= c && c <= '9' {
        Some(c as u8 - 48)
    } else if 'a' <= c && c <= 'f' {
        Some(c as u8 - 87)
    } else if 'A' <= c && c <= 'F' {
        Some(c as u8 - 55)
    } else {
        None
    }
}

/// Where the hexadecimal digits from a place on end.
pub open spec fn hex_end(s: Seq<char>, i: int) -> int
    decreases s.len() - i,
{
    if 0 <= i < s.len() && hex_value(s[i]) is Some {
        hex_end(s, i + 1)
    } else {
        i
    }
}

pub open spec fn hex_pair(a: char, b: char) -> u8 {
    (hex_value(a)->0 * 16 + hex_value(b)->0) as u8
}

/// The colour the digits behind a `#` name, and where they end. Both
/// spellings a stylesheet uses; anything else is not a colour.
pub open spec fn hex_at(s: Seq<char>, i: int) -> Option<(Colour, int)> {
    let e = hex_end(s, i);
    if e - i == 3 {
        Some(
            (
                (
                    hex_pair(s[i], s[i]),
                    hex_pair(s[i + 1], s[i + 1]),
                    hex_pair(s[i + 2], s[i + 2]),
                ),
                e,
            ),
        )
    } else if e - i == 6 {
        Some(
            (
                (
                    hex_pair(s[i], s[i + 1]),
                    hex_pair(s[i + 2], s[i + 3]),
                    hex_pair(s[i + 4], s[i + 5]),
                ),
                e,
            ),
        )
    } else {
        None
    }
}

proof fn lemma_hex_end(s: Seq<char>, i: int)
    requires
        0 <= i <= s.len(),
    ensures
        i <= hex_end(s, i) <= s.len(),
        forall|j: int| i <= j < hex_end(s, i) ==> hex_value(#[trigger] s[j]) is Some,
    decreases s.len() - i,
{
    if i < s.len() && hex_value(s[i]) is Some {
        lemma_hex_end(s, i + 1);
    }
}

fn pair(v: &Vec<char>, i: usize, j: usize) -> (r: u8)
    requires
        i < v@.len(),
        j < v@.len(),
        hex_value(v@[i as int]) is Some,
        hex_value(v@[j as int]) is Some,
    ensures
        r == hex_pair(v@[i as int], v@[j as int]),
{
    let a: u8 = match hex_of(v[i]) {
        Some(n) => n,
        None => 0,
    };
    let b: u8 = match hex_of(v[j]) {
        Some(n) => n,
        None => 0,
    };
    a * 16 + b
}

fn read_hex(v: &Vec<char>, i: usize) -> (r: Option<(Colour, usize)>)
    requires
        i <= v@.len(),
    ensures
        match hex_at(v@, i as int) {
            Some((c, e)) => r matches Some((d, f)) && d == c && f == e && i < f <= v@.len(),
            None => r is None,
        },
{
    let mut e: usize = i;
    while e < v.len() && hex_of(v[e]).is_some()
        invariant
            i <= e <= v@.len(),
            hex_end(v@, i as int) == hex_end(v@, e as int),
        decreases v@.len() - e,
    {
        e += 1;
    }
    proof {
        lemma_hex_end(v@, i as int);
    }
    if e - i == 3 {
        Some(((pair(v, i, i), pair(v, i + 1, i + 1), pair(v, i + 2, i + 2)), e))
    } else if e - i == 6 {
        Some(((pair(v, i, i + 1), pair(v, i + 2, i + 3), pair(v, i + 4, i + 5)), e))
    } else {
        None
    }
}

/// Where the spaces from a place on end.
pub open spec fn spaces_end(s: Seq<char>, i: int) -> int
    decreases s.len() - i,
{
    if 0 <= i < s.len() && s[i] == ' ' {
        spaces_end(s, i + 1)
    } else {
        i
    }
}

/// The number the digits from a place on write, and where they end.
pub open spec fn number_from(s: Seq<char>, i: int, n: int) -> (int, int)
    decreases s.len() - i,
{
    if 0 <= i < s.len() && is_digit(s[i]) {
        number_from(s, i + 1, n * 10 + (s[i] as u32 - 48))
    } else {
        (n, i)
    }
}

/// A channel written as a number of 0 to 255, spaces before it left out, and
/// where it ends.
pub open spec fn channel_at(s: Seq<char>, i: int) -> Option<(u8, int)> {
    let from = spaces_end(s, i);
    let (n, e) = number_from(s, from, 0);
    if e == from || n > 255 {
        None
    } else {
        Some((n as u8, e))
    }
}

/// Where the comma behind a channel ends.
pub open spec fn comma_at(s: Seq<char>, i: int) -> Option<int> {
    let e = spaces_end(s, i);
    if e < s.len() && s[e] == ',' {
        Some(e + 1)
    } else {
        None
    }
}

/// Whether the characters from a place on are a word, in capitals or not.
pub open spec fn word_at(s: Seq<char>, i: int, word: Seq<char>) -> bool {
    i + word.len() <= s.len() && forall|j: int|
        0 <= j < word.len() ==> lower_char(#[trigger] s[i + j]) == word[j]
}

/// Where the numbers of an `rgb(` or `rgba(` begin.
pub open spec fn opened_at(s: Seq<char>, i: int) -> Option<int> {
    if word_at(s, i, "rgba("@) {
        Some(i + 5)
    } else if word_at(s, i, "rgb("@) {
        Some(i + 4)
    } else {
        None
    }
}

/// A channel and the comma behind it.
pub open spec fn channel_and_comma(s: Seq<char>, i: int) -> Option<(u8, int)> {
    match channel_at(s, i) {
        Some((v, e)) => match comma_at(s, e) {
            Some(f) => Some((v, f)),
            None => None,
        },
        None => None,
    }
}

/// The colour an `rgb(` or `rgba(` opens with, and where its third number
/// ends. The alpha, and the closing bracket, are left where they are: how
/// see-through a colour is is not part of which colour it is. A percentage or
/// a fraction behind the digits means this was not the integer form.
pub open spec fn rgb_at(s: Seq<char>, i: int) -> Option<(Colour, int)> {
    match opened_at(s, i) {
        Some(a) => match channel_and_comma(s, a) {
            Some((r, b)) => match channel_and_comma(s, b) {
                Some((g, c)) => match channel_at(s, c) {
                    Some((bl, e)) => if e < s.len() && (s[e] == '%' || s[e] == '.') {
                        None
                    } else {
                        Some(((r, g, bl), e))
                    },
                    None => None,
                },
                None => None,
            },
            None => None,
        },
        None => None,
    }
}

fn skip_spaces(v: &Vec<char>, i: usize) -> (e: usize)
    requires
        i <= v@.len(),
    ensures
        e == spaces_end(v@, i as int),
        i <= e <= v@.len(),
{
    let mut e: usize = i;
    while e < v.len() && v[e] == ' '
        invariant
            i <= e <= v@.len(),
            spaces_end(v@, i as int) == spaces_end(v@, e as int),
        decreases v@.len() - e,
    {
        e += 1;
    }
    e
}

proof fn lemma_number_grows(s: Seq<char>, i: int, n: int)
    requires
        n >= 0,
        0 <= i <= s.len(),
    ensures
        number_from(s, i, n).0 >= n,
        i <= number_from(s, i, n).1 <= s.len(),
    decreases s.len() - i,
{
    if i < s.len() && is_digit(s[i]) {
        lemma_number_grows(s, i + 1, n * 10 + (s[i] as u32 - 48));
    }
}

fn read_channel(v: &Vec<char>, i: usize) -> (r: Option<(u8, usize)>)
    requires
        i <= v@.len(),
    ensures
        match channel_at(v@, i as int) {
            Some((c, e)) => r matches Some((d, f)) && d == c && f == e && i <= f <= v@.len(),
            None => r is None,
        },
{
    let from = skip_spaces(v, i);
    let ghost whole = number_from(v@, from as int, 0);
    let mut n: u64 = 0;
    let mut e: usize = from;
    while e < v.len() && '0' <= v[e] && v[e] <= '9'
        invariant
            i <= from <= e <= v@.len(),
            n <= 255,
            from == spaces_end(v@, i as int),
            whole == number_from(v@, from as int, 0),
            whole == number_from(v@, e as int, n as int),
        decreases v@.len() - e,
    {
        n = n * 10 + (v[e] as u64 - 48);
        e += 1;
        if n > 255 {
            proof {
                lemma_number_grows(v@, e as int, n as int);
            }
            return None;
        }
    }
    proof {
        lemma_number_grows(v@, from as int, 0);
    }
    if e == from {
        None
    } else {
        Some((n as u8, e))
    }
}

fn read_comma(v: &Vec<char>, i: usize) -> (r: Option<usize>)
    requires
        i <= v@.len(),
    ensures
        match comma_at(v@, i as int) {
            Some(e) => r matches Some(f) && f == e && i < f <= v@.len(),
            None => r is None,
        },
{
    let e = skip_spaces(v, i);
    if e < v.len() && v[e] == ',' {
        Some(e + 1)
    } else {
        None
    }
}

fn read_pair(v: &Vec<char>, i: usize) -> (r: Option<(u8, usize)>)
    requires
        i <= v@.len(),
    ensures
        match channel_and_comma(v@, i as int) {
            Some((c, e)) => r matches Some((d, f)) && d == c && f == e && i < f <= v@.len(),
            None => r is None,
        },
{
    match read_channel(v, i) {
        Some((c, e)) => match read_comma(v, e) {
            Some(f) => Some((c, f)),
            None => None,
        },
        None => None,
    }
}

fn lowered(c: char) -> (r: char)
    ensures
        r == lower_char(c),
{
    if 'A' <= c && c <= 'Z' {
        (c as u8 + 32) as char
    } else {
        c
    }
}

fn is_word(v: &Vec<char>, i: usize, word: &str) -> (r: bool)
    requires
        i <= v.len(),
    ensures
        r == word_at(v@, i as int, word@),
{
    let w = chars_of(word);
    if v.len() - i < w.len() {
        return false;
    }
    for j in 0..w.len()
        invariant
            i + w@.len() <= v.len(),
            w@ == word@,
            forall|k: int| 0 <= k < j ==> lower_char(#[trigger] v@[i + k]) == w@[k],
    {
        if lowered(v[i + j]) != w[j] {
            assert(lower_char(v@[i + j as int]) != word@[j as int]);
            return false;
        }
    }
    true
}

fn read_rgb(v: &Vec<char>, i: usize) -> (r: Option<(Colour, usize)>)
    requires
        i <= v.len(),
    ensures
        match rgb_at(v@, i as int) {
            Some((c, e)) => r matches Some((d, f)) && d == c && f == e && i < f <= v@.len(),
            None => r is None,
        },
{
    proof {
        reveal_strlit("rgba(");
        reveal_strlit("rgb(");
    }
    let a: usize = if is_word(v, i, "rgba(") {
        i + 5
    } else if is_word(v, i, "rgb(") {
        i + 4
    } else {
        return None;
    };
    let (red, b) = match read_pair(v, a) {
        Some(x) => x,
        None => {
            return None;
        },
    };
    let (green, c) = match read_pair(v, b) {
        Some(x) => x,
        None => {
            return None;
        },
    };
    let (blue, e) = match read_channel(v, c) {
        Some(x) => x,
        None => {
            return None;
        },
    };
    if e < v.len() && (v[e] == '%' || v[e] == '.') {
        return None;
    }
    Some(((red, green, blue), e))
}

/// Two hexadecimal digits.
pub open spec fn hex_two(n: int) -> Seq<char> {
    seq![crate::json::hex_digit(n / 16), crate::json::hex_digit(n % 16)]
}

pub open spec fn hex_text(c: (int, int, int)) -> Seq<char> {
    "#"@ + hex_two(c.0) + hex_two(c.1) + hex_two(c.2)
}

pub open spec fn rgb_text(c: (int, int, int)) -> Seq<char> {
    "rgb("@ + dec(c.0 as nat) + ", "@ + dec(c.1 as nat) + ", "@ + dec(c.2 as nat)
}

/// What stands at a place of a stylesheet that is to be put otherwise, and
/// where it ends: a primary blue, in either spelling.
pub open spec fn put_at_place(s: Seq<char>, i: int) -> Option<(Seq<char>, int)> {
    let hex = if s[i] == '#' {
        hex_at(s, i + 1)
    } else {
        None
    };
    let rgb = if s[i] == 'r' || s[i] == 'R' {
        rgb_at(s, i)
    } else {
        None
    };
    match (hex, rgb) {
        (Some((c, e)), _) => match moved_to(c) {
            Some(m) => Some((hex_text(m), e)),
            None => None,
        },
        (None, Some((c, e))) => match moved_to(c) {
            Some(m) => Some((rgb_text(m), e)),
            None => None,
        },
        _ => None,
    }
}

/// The rest of a stylesheet from a place on, recoloured.
pub open spec fn recoloured_from(s: Seq<char>, i: int) -> Seq<char>
    decreases s.len() - i,
{
    if i < 0 || i >= s.len() {
        Seq::empty()
    } else {
        match put_at_place(s, i) {
            Some((t, e)) => if i < e <= s.len() {
                t + recoloured_from(s, e)
            } else {
                Seq::empty()
            },
            None => seq![s[i]] + recoloured_from(s, i + 1),
        }
    }
}

fn push_hex(out: &mut String, n: u8)
    ensures
        final(out)@ == old(out)@ + hex_two(n as int),
{
    out.push(crate::json::hex_char((n / 16) as u32));
    out.push(crate::json::hex_char((n % 16) as u32));
    assert(out@ =~= old(out)@ + hex_two(n as int));
}

fn replacement(v: &Vec<char>, i: usize) -> (r: Option<(String, usize)>)
    requires
        i < v.len(),
    ensures
        match put_at_place(v@, i as int) {
            Some((t, e)) => r matches Some((u, f)) && u@ == t && f == e && i < f <= v@.len(),
            None => r is None,
        },
{
    if v[i] == '#' {
        if let Some((c, e)) = read_hex(v, i + 1) {
            if let Some(m) = moved(c) {
                let mut t = "#".to_owned();
                push_hex(&mut t, m.0);
                push_hex(&mut t, m.1);
                push_hex(&mut t, m.2);
                return Some((t, e));
            }
        }
        return None;
    }
    if v[i] == 'r' || v[i] == 'R' {
        if let Some((c, e)) = read_rgb(v, i) {
            if let Some(m) = moved(c) {
                let t = "rgb(".to_owned().concat(decimal(m.0 as u64).as_str()).concat(
                    ", ",
                ).concat(decimal(m.1 as u64).as_str()).concat(", ").concat(
                    decimal(m.2 as u64).as_str(),
                );
                return Some((t, e));
            }
        }
    }
    None
}

/// A theme's stylesheet with its blues moved onto the brand's green.
///
/// This is the theme, not a skin over it. Every colour the stylesheet names is
/// looked at, the ones that are the primary blue are replaced, and the rest --
/// text, surfaces, borders, the danger red, the warning yellow and the
/// categorical palette a chart draws its series in -- are left exactly as they
/// were.
///
/// A replacement keeps the colour's *relative luminance*, which is the one
/// property WCAG contrast is computed from. Hue and saturation move; how
/// bright the colour is does not.
pub fn recoloured(css: &str) -> (r: String)
    ensures
        r@ == recoloured_from(css@, 0),
{
    let v = chars_of(css);
    let mut out = String::new();
    let mut i: usize = 0;
    assert(out@ + recoloured_from(v@, 0) =~= recoloured_from(v@, 0));
    while i < v.len()
        invariant
            i <= v@.len(),
            v@ == css@,
            out@ + recoloured_from(v@, i as int) == recoloured_from(v@, 0),
        decreases v@.len() - i,
    {
        let ghost before = out@;
        match replacement(&v, i) {
            Some((t, e)) => {
                out.append(t.as_str());
                assert(out@ + recoloured_from(v@, e as int) =~= before + (t@ + recoloured_from(
                    v@,
                    e as int,
                )));
                i = e;
            },
            None => {
                out.push(v[i]);
                assert(out@ + recoloured_from(v@, i + 1) =~= before + (seq![v@[i as int]]
                    + recoloured_from(v@, i + 1)));
                i += 1;
            },
        }
    }
    assert(out@ + recoloured_from(v@, i as int) =~= out@);
    out
}

// ---- what it comes to ----------------------------------------------------------

/// Whatever is not the primary blue is left exactly as it was: a text in which
/// nothing names one comes out unchanged.
pub proof fn law_what_is_not_the_primary_is_left_as_it_was(css: Seq<char>)
    requires
        forall|i: int| 0 <= i < css.len() ==> #[trigger] put_at_place(css, i) is None,
    ensures
        recoloured_from(css, 0) == css,
{
    lemma_left(css, 0);
    assert(css.skip(0) =~= css);
}

proof fn lemma_left(css: Seq<char>, i: int)
    requires
        0 <= i <= css.len(),
        forall|i: int| 0 <= i < css.len() ==> #[trigger] put_at_place(css, i) is None,
    ensures
        recoloured_from(css, i) == css.skip(i),
    decreases css.len() - i,
{
    if i < css.len() {
        assert(put_at_place(css, i) is None);
        lemma_left(css, i + 1);
        assert(css.skip(i) =~= seq![css[i]] + css.skip(i + 1));
    } else {
        assert(css.skip(i) =~= Seq::<char>::empty());
    }
}

/// A colour that is not the primary blue is never moved, in either spelling.
pub proof fn law_only_the_primary_is_moved(css: Seq<char>, i: int)
    requires
        0 <= i < css.len(),
        put_at_place(css, i) is Some,
    ensures
        css[i] == '#' ==> (hex_at(css, i + 1) matches Some((c, e)) && is_primary(c)),
        css[i] != '#' ==> (rgb_at(css, i) matches Some((c, e)) && is_primary(c)),
{
}

proof fn lemma_narrowed(want: int, s: int, d: int, low: int, high: int, n: nat)
    requires
        0 <= low <= high <= FINE,
        high - low == vstd::arithmetic::power2::pow2(n + 1),
        low == 0 || brightness(low, s, d) < want,
        high == FINE || brightness(high, s, d) >= want,
    ensures
        ({
            let (l, h) = narrowed(want, s, d, low, high, n);
            &&& 0 <= l < h <= FINE
            &&& h - l == 2
            &&& l == 0 || brightness(l, s, d) < want
            &&& h == FINE || brightness(h, s, d) >= want
        }),
    decreases n,
{
    use_pow2(n);
    if n > 0 {
        let middle = (low + high) / 2;
        use_pow2((n - 1) as nat);
        if brightness(middle, s, d) < want {
            lemma_narrowed(want, s, d, middle, high, (n - 1) as nat);
        } else {
            lemma_narrowed(want, s, d, low, middle, (n - 1) as nat);
        }
    }
}

proof fn use_pow2(n: nat)
    ensures
        vstd::arithmetic::power2::pow2(n + 1) == 2 * vstd::arithmetic::power2::pow2(n),
        vstd::arithmetic::power2::pow2(0) == 1,
{
    vstd::arithmetic::power2::lemma_pow2_unfold(n + 1);
    vstd::arithmetic::power2::lemma2_to64();
}

/// A replacement is as bright as the colour it replaces: its lightness is one
/// part in two to the twenty-fifth from where the brand's hue gets as bright
/// as the colour was.
pub proof fn law_a_colour_comes_out_as_bright_as_it_went_in(c: Colour)
    requires
        is_primary(c),
    ensures
        ({
            let want = luminance(c.0 as int, c.1 as int, c.2 as int);
            let s = span(c);
            let d = widest(lights(c));
            let (low, high) = narrowed(want, s, d, 0, FINE as int, 24);
            &&& moved_to(c) == Some(green_at(low + 1, s, d))
            &&& high == low + 2
            &&& low == 0 || brightness(low, s, d) < want
            &&& high == FINE || brightness(high, s, d) >= want
        }),
{
    vstd::arithmetic::power2::lemma2_to64();
    let want = luminance(c.0 as int, c.1 as int, c.2 as int);
    let s = span(c);
    let d = widest(lights(c));
    assert(vstd::arithmetic::power2::pow2(25) == 0x200_0000);
    lemma_narrowed(want, s, d, 0, FINE as int, 24);
}

/// The lightness a primary colour is moved to.
pub(crate) proof fn lemma_moved(c: Colour) -> (k: int)
    requires
        moved_to(c) is Some,
    ensures
        0 <= k <= FINE,
        0 <= span(c) <= widest(lights(c)) <= 255,
        widest(lights(c)) > 0,
        moved_to(c) == Some(green_at(k, span(c), widest(lights(c)))),
{
    vstd::arithmetic::power2::lemma2_to64();
    let want = luminance(c.0 as int, c.1 as int, c.2 as int);
    assert(vstd::arithmetic::power2::pow2(25) == 0x200_0000);
    lemma_narrowed(want, span(c), widest(lights(c)), 0, FINE as int, 24);
    let (low, high) = narrowed(want, span(c), widest(lights(c)), 0, FINE as int, 24);
    low + 1
}

// ---- the page ------------------------------------------------------------------

/// The address of one of the brand's files, under the console's base path.
pub open spec fn url(base: Seq<char>, name: Seq<char>) -> Seq<char> {
    base + FOLDER@ + "/"@ + name
}

fn url_of(base: &str, name: &str) -> (r: String)
    ensures
        r@ == url(base@, name@),
{
    base.to_owned().concat(FOLDER).concat("/").concat(name)
}

/// A mark for a light page and for a dark one.
pub open spec fn mark_json(light: Seq<char>, dark: Seq<char>) -> JsonV {
    JsonV::Object(
        no_fields().push(("defaultUrl"@, JsonV::Text(light))).push(
            ("darkModeUrl"@, JsonV::Text(dark)),
        ),
    )
}

fn mark_in(light: &str, dark: &str) -> (r: Json)
    ensures
        r.deep_view() == mark_json(light@, dark@),
{
    let mut o = fields();
    field(&mut o, "defaultUrl", text(light));
    field(&mut o, "darkModeUrl", text(dark));
    object(o)
}

/// The `branding` block: the distribution's own with this brand's name and
/// marks put in it, what is not a brand left as it was.
pub open spec fn branded(base: Seq<char>, pinned: JsonV) -> JsonV {
    let start = match pinned {
        JsonV::Object(o) => o,
        _ => no_fields(),
    };
    let a = with(start, "assetFolderUrl"@, JsonV::Text(base + FOLDER@));
    let b = with(
        a,
        "logo"@,
        mark_json(url(base, "logo.png"@), url(base, "logo-dark.png"@)),
    );
    let c = with(b, "mark"@, mark_json(url(base, "mark.png"@), url(base, "mark.png"@)));
    let d = with(c, "loadingLogo"@, mark_json(url(base, "mark.png"@), url(base, "mark.png"@)));
    let e = with(d, "faviconUrl"@, JsonV::Text(url(base, "favicon.png"@)));
    JsonV::Object(with(e, "applicationTitle"@, JsonV::Text(TITLE@)))
}

/// The `branding` block the front end boots from: the distribution's own,
/// with this brand's name and marks put in it.
///
/// It starts from `pinned` rather than replacing it, because the block
/// carries more than a brand -- `useExpandedHeader` is a layout the
/// application draws, not a colour. Every URL is made absolute against
/// `base`, the console's base path.
pub fn block(base: &str, pinned: &Json) -> (r: Json)
    ensures
        r.deep_view() == branded(base@, pinned.deep_view()),
{
    let copy = pinned.clone();
    let mut o: Vec<(String, Json)> = match copy {
        Json::Object(members) => {
            proof {
                crate::json::lemma_object(members);
            }
            members
        },
        _ => fields(),
    };
    proof {
        match pinned {
            Json::Object(members) => {
                crate::json::lemma_object(*members);
            },
            _ => {},
        }
    }
    let mark = url_of(base, "mark.png");
    put(&mut o, "assetFolderUrl".to_owned(), text(base.to_owned().concat(FOLDER).as_str()));
    put(
        &mut o,
        "logo".to_owned(),
        mark_in(url_of(base, "logo.png").as_str(), url_of(base, "logo-dark.png").as_str()),
    );
    put(&mut o, "mark".to_owned(), mark_in(mark.as_str(), mark.as_str()));
    put(&mut o, "loadingLogo".to_owned(), mark_in(mark.as_str(), mark.as_str()));
    put(&mut o, "faviconUrl".to_owned(), text(url_of(base, "favicon.png").as_str()));
    put(&mut o, "applicationTitle".to_owned(), text(TITLE));
    object(o)
}

/// What goes into the page's head.
pub open spec fn head_of(base: Seq<char>) -> Seq<char> {
    "<link rel=\"icon\" type=\"image/png\" href=\""@ + url(base, "favicon.png"@)
        + "\"/><link rel=\"shortcut icon\" href=\""@ + url(base, "favicon.png"@)
        + "\"/><link rel=\"apple-touch-icon\" href=\""@ + url(base, "mark.png"@)
        + "\"/><meta name=\"theme-color\" content=\""@ + DEEP@
        + "\"/><link rel=\"stylesheet\" href=\""@ + url(base, "brand.css"@) + "\"/>"@
}

/// What goes into the page's head: this brand's icons and colours, after
/// everything the distribution put there, so that they are what a browser
/// ends up with.
pub fn head(base: &str) -> (r: String)
    ensures
        r@ == head_of(base@),
{
    let icon = url_of(base, "favicon.png");
    "<link rel=\"icon\" type=\"image/png\" href=\"".to_owned().concat(icon.as_str()).concat(
        "\"/><link rel=\"shortcut icon\" href=\"",
    ).concat(icon.as_str()).concat("\"/><link rel=\"apple-touch-icon\" href=\"").concat(
        url_of(base, "mark.png").as_str(),
    ).concat("\"/><meta name=\"theme-color\" content=\"").concat(DEEP).concat(
        "\"/><link rel=\"stylesheet\" href=\"",
    ).concat(url_of(base, "brand.css").as_str()).concat("\"/>")
}

} // verus!
