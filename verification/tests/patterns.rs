//! Each command pattern, checked against the regular expression that states it.
use catbot::handler::cat::Cat;
use catbot::handler::colon3::{Colon3, Style};
use catbot::handler::help::Help;
use catbot::handler::love::Love;
use catbot::handler::no::No;
use catbot::handler::owo::OwO;
use catbot::handler::post::Post;
use catbot::handler::{Captures, Span};
use regex::Regex;

fn chars(s: &str) -> Vec<char> {
    s.chars().collect()
}

fn span_text(v: &[char], s: Span) -> String {
    v[s.start..s.end].iter().collect()
}

const SAMPLES: &[&str] = &[
    "",
    "cat",
    "CAT",
    "Cat",
    "cats",
    " cat",
    "feline",
    "FeLiNe",
    "best animal",
    "BEST ANIMAL",
    "beſt animal",
    "literally domesticated tiger",
    "literally domeſticated tiger",
    "apex predator",
    "apex  predator",
    "pyramid",
    "PYRAMID",
    "pyramid 5",
    "pyramid 14",
    "pyramid 15",
    "pyramid 0",
    "pyramid 256",
    "pyramid 0003",
    "pyramid ٣",
    "pyramid 1٣",
    "pyramid 5 ",
    "pyramid  5",
    "pyramid5",
    "pyramid x",
    "pyramid ",
    "old pyramid",
    "OLD PYRAMID 4",
    "old pyramid 2",
    "oldpyramid",
    "old  pyramid",
    "pyramids",
    "custom :) pyramid 2",
    "CUSTOM xy PYRAMID",
    "custom pyramid",
    "custom  pyramid",
    "custom a pyramid b pyramid 3",
    "custom a pyramid b pyramid x",
    "custom a\nb pyramid",
    "custom 🐶 pyramid 4",
    "custom old pyramid",
    "old custom x pyramid",
    "custompyramid",
    "no",
    "NO",
    "no!!!",
    "no!?",
    "stop",
    "ſtop",
    "undo!",
    "please no",
    "PLEASE STOP!!",
    "pleaſe undo",
    "pls no",
    "plz stop",
    "i beg youno",
    "i beg you no",
    "I BEG YOUSTOP!",
    "nope",
    "please",
    "help",
    "HELP me",
    "can you help",
    "hElP",
    "i love you",
    "I LOVE YOU so much",
    ", i love you",
    ",  i love you",
    "i lov you",
    "you i love you",
    "post cats",
    "post CATS",
    "please post dogs",
    "post ",
    "post",
    "Post cats",
    "post a\nb",
    "post x post y",
    "xpost yz",
    "owo",
    "OwO",
    "what owo",
    "ow o",
    "\u{212a}ey",
];

#[test]
fn cat_pattern_fits_regex() {
    let re = Regex::new(r"^(?i:cat|feline|best animal|literally domesticated tiger|apex predator)$").unwrap();
    for s in SAMPLES {
        assert_eq!(Cat.captures(&chars(s)).is_some(), re.is_match(s), "{:?}", s);
    }
}

#[test]
fn pyramid_pattern_fits_regex() {
    let re = Regex::new(r"^(?i:(old |custom (.+) )?pyramid)(?: (\d+))?$").unwrap();
    for s in SAMPLES {
        let v = chars(s);
        match (Colon3.captures(&v), re.captures(s)) {
            (None, None) => {}
            (Some(Captures::Pyramid { style, height }), Some(caps)) => {
                let old = caps.get(1).map_or(false, |m| m.as_str().to_lowercase() == "old ");
                match style {
                    Style::Cats => assert!(caps.get(1).is_none(), "{:?}", s),
                    Style::Old => assert!(old, "{:?}", s),
                    Style::Custom(p) => assert_eq!(Some(span_text(&v, p)), caps.get(2).map(|m| m.as_str().to_string()), "{:?}", s),
                }
                assert_eq!(height.map(|h| span_text(&v, h)), caps.get(3).map(|m| m.as_str().to_string()), "{:?}", s);
            }
            (mine, theirs) => panic!("{:?}: {:?} against {:?}", s, mine, theirs.is_some()),
        }
    }
}

#[test]
fn no_pattern_fits_regex() {
    let re = Regex::new("(?i:^(please |pls |plz |i beg you)?(no|stop|undo)!*)$").unwrap();
    for s in SAMPLES {
        assert_eq!(No.captures(&chars(s)).is_some(), re.is_match(s), "{:?}", s);
    }
}

#[test]
fn help_pattern_fits_regex() {
    let re = Regex::new(r"(?i:help)").unwrap();
    for s in SAMPLES {
        assert_eq!(Help.captures(&chars(s)).is_some(), re.is_match(s), "{:?}", s);
    }
}

#[test]
fn love_pattern_fits_regex() {
    let re = Regex::new(r"^(, )?(?i:i love you)").unwrap();
    for s in SAMPLES {
        assert_eq!(Love.captures(&chars(s)).is_some(), re.is_match(s), "{:?}", s);
    }
}

#[test]
fn owo_pattern_fits_regex() {
    let re = Regex::new(r"(?i:owo)").unwrap();
    for s in SAMPLES {
        assert_eq!(OwO.captures(&chars(s)).is_some(), re.is_match(s), "{:?}", s);
    }
}

#[test]
fn post_pattern_fits_regex() {
    let re = Regex::new(r"post (.*)").unwrap();
    let post = Post::new();
    for s in SAMPLES {
        let v = chars(s);
        match (post.captures(&v), re.captures(s)) {
            (None, None) => {}
            (Some(Captures::Item(span)), Some(caps)) => {
                assert_eq!(span_text(&v, span), caps.get(1).unwrap().as_str(), "{:?}", s);
            }
            (mine, theirs) => panic!("{:?}: {:?} against {:?}", s, mine, theirs.is_some()),
        }
    }
}

#[test]
fn kelvin_sign_spells_k() {
    // The one further character that case folding sends to an ASCII letter.
    let re = Regex::new(r"(?i:k)").unwrap();
    assert!(re.is_match("\u{212a}"));
    assert!(re.is_match("K"));
    assert!(!re.is_match("\u{138}"));
}
