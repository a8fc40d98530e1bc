use velosearch::console::brand::{
    asset, block, head, moved, recoloured, stylesheet, wanted, Marks, ACCENT, DEEP, PRIMARY,
    PRIMARY_DARK, TINT,
};
use velosearch::json::Json;

const BRAND_HUE: f64 = 151.0;

const PNG: [u8; 8] = *b"\x89PNG\r\n\x1a\n";

fn image(last: u8) -> Vec<u8> {
    let mut v = PNG.to_vec();
    v.push(last);
    v
}

fn marks() -> Marks {
    Marks::new(image(1), image(2), image(3), image(4)).unwrap()
}

fn text(j: &Json, key: &str) -> String {
    match j.get(key) {
        Some(Json::Text(s)) => s.clone(),
        _ => panic!("{key} is not a string"),
    }
}

/// The contrast of two colours, as WCAG counts it.
fn contrast(a: &str, b: &str) -> f64 {
    let luminance = |hex: &str| {
        let hex = hex.trim_start_matches('#');
        let channel = |i: usize| {
            let v = u8::from_str_radix(&hex[i..i + 2], 16).unwrap() as f64 / 255.0;
            if v <= 0.03928 {
                v / 12.92
            } else {
                ((v + 0.055) / 1.055).powf(2.4)
            }
        };
        0.2126 * channel(0) + 0.7152 * channel(2) + 0.0722 * channel(4)
    };
    let (a, b) = (luminance(a), luminance(b));
    (a.max(b) + 0.05) / (a.min(b) + 0.05)
}

/// A colour's hue in degrees.
fn hue(colour: (u8, u8, u8)) -> f64 {
    let (r, g, b) = (colour.0 as f64 / 255.0, colour.1 as f64 / 255.0, colour.2 as f64 / 255.0);
    let (high, low) = (r.max(g).max(b), r.min(g).min(b));
    let span = high - low;
    if high == r {
        60.0 * (((g - b) / span) % 6.0)
    } else if high == g {
        60.0 * ((b - r) / span + 2.0)
    } else {
        60.0 * ((r - g) / span + 4.0)
    }
}

/// A colour's relative luminance, as WCAG defines it.
fn luminance(colour: (u8, u8, u8)) -> f64 {
    let channel = |v: u8| {
        let v = v as f64 / 255.0;
        if v <= 0.04045 {
            v / 12.92
        } else {
            ((v + 0.055) / 1.055).powf(2.4)
        }
    };
    0.2126 * channel(colour.0) + 0.7152 * channel(colour.1) + 0.0722 * channel(colour.2)
}

/// A `#rrggbb` as three numbers.
fn read(hex: &str) -> (u8, u8, u8) {
    let hex = hex.trim_start_matches('#');
    let at = |i: usize| u8::from_str_radix(&hex[i..i + 2], 16).unwrap();
    (at(0), at(2), at(4))
}

/// The blue a distribution's own theme draws its primary in, and the two
/// shades either side of it that the six stylesheets actually contain.
const THEME_BLUES: &[&str] = &[
    "#0268BC", "#006BB4", "#0097D1", "#1BA9F5", "#79AAD9", "#49BAF7", "#025AA3", "#014C8A",
    "#093B56", "#013652", "#002A46",
];

/// Colours the theme draws that are not the primary, and must survive
/// untouched: black, white, the body text and panel borders of both
/// themes, the danger red, the warning yellow, the success green, and
/// the categorical palette a chart gives its series.
const NOT_THE_PRIMARY: &[&str] = &[
    "#000000", "#FFFFFF", "#FCFEFF", "#2A3947", "#DFE5EF", "#0A121A", "#BD271E", "#F5A700",
    "#017D73", "#54B399", "#6092C0", "#D36086", "#9170B8", "#CA8EAE", "#D6BF57", "#B9A888",
    "#DA8B45", "#AA6556", "#E7664C",
];

#[test]
fn text_in_the_brand_colour_can_be_read() {
    // 4.5 is what WCAG AA asks of body text; the accent is the mark's
    // colour and is never text on a light page, which is the whole
    // reason there are two greens
    assert!(contrast(PRIMARY, "#FFFFFF") >= 4.5, "{}", contrast(PRIMARY, "#FFFFFF"));
    assert!(contrast(PRIMARY_DARK, "#FFFFFF") >= 4.5);
    assert!(contrast(DEEP, "#FFFFFF") >= 4.5);
    // and on the dark theme's surface the bright one is what is read
    assert!(contrast(ACCENT, "#1D1E24") >= 4.5, "{}", contrast(ACCENT, "#1D1E24"));
    assert!(contrast(TINT, DEEP) >= 4.5);
}

#[test]
fn every_mark_the_branding_names_is_a_file_that_is_there() {
    let block = block("", &Json::Object(Vec::new()));
    let mut named = vec![];
    for key in ["logo", "mark", "loadingLogo"] {
        for mode in ["defaultUrl", "darkModeUrl"] {
            named.push(text(block.get(key).unwrap(), mode));
        }
    }
    named.push(text(&block, "faviconUrl"));
    let marks = marks();
    for url in named {
        let file = url.rsplit('/').next().unwrap();
        assert!(
            asset(&marks, file).is_some(),
            "the branding names {url}, which is not served"
        );
    }
}

#[test]
fn the_marks_are_images_rather_than_whatever_was_in_the_directory() {
    let marks = marks();
    for (name, last) in
        [("logo.png", 1), ("logo-dark.png", 2), ("mark.png", 3), ("favicon.png", 4)]
    {
        let (bytes, kind) = asset(&marks, name).unwrap();
        assert_eq!(kind, "image/png", "{name}");
        assert_eq!(&bytes[..8], b"\x89PNG\r\n\x1a\n", "{name} is not a png");
        assert_eq!(bytes[8], last);
    }
    assert!(asset(&marks, "other.png").is_none());
    // anything else is no mark at all
    assert!(Marks::new(image(1), image(2), b"GIF89a..".to_vec(), image(4)).is_none());
    assert!(Marks::new(image(1), image(2), image(3), Vec::new()).is_none());
}

#[test]
fn the_urls_are_under_the_console_s_base_path() {
    let pinned = Json::Object(vec![("useExpandedHeader".to_string(), Json::Bool(true))]);
    let block = block("/console", &pinned);
    // what is not a brand is left as the distribution had it
    assert!(matches!(block.get("useExpandedHeader"), Some(Json::Bool(true))));
    assert_eq!(text(&block, "assetFolderUrl"), "/console/ui/velosearch");
    assert_eq!(
        text(block.get("logo").unwrap(), "defaultUrl"),
        "/console/ui/velosearch/logo.png"
    );
    assert!(head("/console").contains("/console/ui/velosearch/brand.css"));
    assert_eq!(text(&block, "applicationTitle"), "VeloSearch");
}

#[test]
fn the_theme_s_blue_comes_out_the_brand_s_green() {
    for blue in THEME_BLUES {
        let after = recoloured(blue);
        assert_ne!(&after, blue, "{blue} was left alone");
        let hue = hue(read(&after));
        assert!(
            (hue - BRAND_HUE).abs() < 2.0,
            "{blue} -> {after} came out at {hue:.0} degrees, not the brand's"
        );
    }
}

#[test]
fn what_is_not_the_primary_is_left_exactly_as_it_was() {
    for colour in NOT_THE_PRIMARY {
        assert_eq!(&recoloured(colour), colour, "{colour} was moved and should not have been");
    }
}

#[test]
fn the_primary_lands_where_the_brand_already_was() {
    // the distribution's primary and the brand's green were arrived at
    // separately, and the move puts the first within two units of the
    // second -- which is the argument that this is the same theme in
    // another colour rather than a different theme
    assert_eq!(recoloured("#0268BC"), "#01773e");
    assert!((luminance(read("#01773e")) - luminance(read(PRIMARY))).abs() < 0.01);
}

#[test]
fn a_colour_comes_out_as_bright_as_it_went_in() {
    // this is the whole promise: contrast is computed from relative
    // luminance, so a theme whose luminances are unchanged is a theme
    // whose every measured contrast ratio is unchanged
    for blue in THEME_BLUES {
        let before = luminance(read(blue));
        let after = luminance(read(&recoloured(blue)));
        let ratio = |l: f64| 1.05 / (l + 0.05);
        assert!(
            (ratio(before) - ratio(after)).abs() < 0.1,
            "{blue}: contrast against white went {:.2} -> {:.2}",
            ratio(before),
            ratio(after)
        );
    }
}

#[test]
fn a_stylesheet_comes_out_a_stylesheet() {
    let css = ".euiButton{background:#0268BC;color:#FFF;border:1px solid rgba(2, 104, 188, .3)}\
               .euiText{color:#2A3947}\
               @media (min-width:768px){.x{box-shadow:0 2px 4px rgba(0,0,0,0.15)}}";
    let after = recoloured(css);
    // the shape is untouched: same braces, same declarations, same length
    // of everything that is not a colour
    assert_eq!(css.matches('{').count(), after.matches('{').count());
    assert_eq!(css.matches(';').count(), after.matches(';').count());
    assert!(after.contains(".euiText{color:#2A3947}"), "{after}");
    assert!(after.contains("rgba(0,0,0,0.15)"), "{after}");
    assert!(after.contains("#FFF"), "{after}");
    assert!(!after.to_lowercase().contains("#0268bc"), "{after}");
    assert!(!after.contains("rgba(2, 104, 188"), "{after}");
    assert!(after.contains(", .3)"), "how see-through it is is not a colour: {after}");
}

#[test]
fn nothing_that_is_not_a_colour_is_touched() {
    for text in [
        "#0268BCDD", // eight digits is a colour with an alpha, not six
        "a#12",
        "rgb(2, 104, 188%)",
        "rgb(0.8%, 40%, 74%)",
        "url(#filter0268BC)",
        "--osd-id-0268BC",
    ] {
        assert_eq!(recoloured(text), text, "{text}");
    }
}

#[test]
fn the_stylesheet_carries_the_brand_rather_than_a_colour_somebody_typed() {
    let css = stylesheet();
    assert!(css.contains(ACCENT) && css.contains(PRIMARY) && css.contains(DEEP));
    // OpenSearch's own blue is what this replaces; none of it may be left
    assert!(!css.to_lowercase().contains("#0073e6"));
    assert!(!css.to_lowercase().contains("#003553"));
    assert!(css.starts_with(":root {--velo-accent: #00C566;--velo-primary: #00753C;"));
    assert!(css.ends_with(".osdProgress:before { background-color: #00C566; }\n"));
}

#[test]
fn an_operator_can_turn_the_brand_off() {
    assert!(wanted(&None) && wanted(&Some("velosearch".into())));
    for no in ["opensearch", "off", "none"] {
        assert!(!wanted(&Some(no.into())));
    }
}

#[test]
fn both_spellings_of_a_colour_are_moved() {
    assert_eq!(moved((2, 0x68, 0xbc)), Some((1, 0x77, 0x3e)));
    assert_eq!(moved((0, 0, 0)), None);
    assert_eq!(recoloured("RGBA( 2,104 ,188,1)"), "rgb(1, 119, 62,1)");
    assert_eq!(recoloured("é #0268bc é"), "é #01773e é");
}

#[test]
fn a_recoloured_sheet_is_not_recoloured_again() {
    let css = "a{color:#006BB4}b{border:RGBA(0, 107,180,.5)}#006bb4#006BB4rgb(0,107,180)x";
    let once = recoloured(css);
    assert_ne!(once, css);
    assert_eq!(recoloured(&once), once);
}

#[test]
fn each_declaration_is_recoloured_by_itself() {
    let (a, b) = ("color:rgb(0,107,180", "#006BB4;x");
    let both = format!("{a};{b}");
    assert_eq!(recoloured(&both), format!("{};{}", recoloured(a), recoloured(b)));
    assert_ne!(recoloured(&both), both);
}

#[test]
fn a_block_in_another_order_is_branded_once() {
    let pinned = Json::Object(vec![
        ("useExpandedHeader".into(), Json::Bool(true)),
        ("logo".into(), Json::Null),
        ("applicationTitle".into(), Json::Null),
    ]);
    match block("", &pinned) {
        Json::Object(o) => {
            assert_eq!(o.iter().filter(|(k, _)| k == "logo").count(), 1);
            assert_eq!(o.iter().filter(|(k, _)| k == "applicationTitle").count(), 1);
        }
        _ => panic!("the block is an object"),
    }
}
