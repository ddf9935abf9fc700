//! The settings of the reader, and how they are kept in an INI file.

use crate::parser::ini::{Pair, PairView, Parse};
use crate::text::same_text;
use crate::util::decimal::{
    decimal_string, digits_of, lemma_unsigned_of_digits, parse_unsigned, signed_decimal_string,
    signed_digits_of, unsigned,
};
use vstd::prelude::*;
use vstd::string::StringExecFns;

verus! {

/// The looks of a page.
#[derive(Debug)]
pub struct CSSVariables {
    pub font: String,
    pub fg_color: String,
    pub bg_color: String,
    /// The width of the text, as the number is written.
    pub content_width: String,
    pub content_font_size_px: u32,
}

/// What [`CSSVariables`] hold.
pub struct CSSVariablesView {
    pub font: Seq<char>,
    pub fg_color: Seq<char>,
    pub bg_color: Seq<char>,
    pub content_width: Seq<char>,
    pub content_font_size_px: u32,
}

impl View for CSSVariables {
    type V = CSSVariablesView;

    open spec fn view(&self) -> CSSVariablesView {
        CSSVariablesView {
            font: self.font@,
            fg_color: self.fg_color@,
            bg_color: self.bg_color@,
            content_width: self.content_width@,
            content_font_size_px: self.content_font_size_px,
        }
    }
}

/// The settings of the reader.
#[derive(Debug)]
pub struct Config {
    pub open_in_browser: bool,
    /// After how many minutes without a request the reader ends; never, if
    /// this is negative.
    pub kill_timeout: isize,
    pub bind_addr: String,
    pub bind_port: u16,
    pub css_variables: CSSVariables,
}

/// What a [`Config`] holds.
pub struct ConfigView {
    pub open_in_browser: bool,
    pub kill_timeout: isize,
    pub bind_addr: Seq<char>,
    pub bind_port: u16,
    pub css_variables: CSSVariablesView,
}

impl View for Config {
    type V = ConfigView;

    open spec fn view(&self) -> ConfigView {
        ConfigView {
            open_in_browser: self.open_in_browser,
            kill_timeout: self.kill_timeout,
            bind_addr: self.bind_addr@,
            bind_port: self.bind_port,
            css_variables: self.css_variables@,
        }
    }
}

/// A setting whose value cannot be read.
#[derive(Debug, PartialEq, Eq, Structural)]
pub enum ConfigError {
    InvalidBindPort,
    InvalidOpenInBrowser,
    InvalidContentFontSize,
}

/// The looks of a page as they are unless something else is set.
pub open spec fn default_css_variables() -> CSSVariablesView {
    CSSVariablesView {
        font: "'Iosevka', sans-serif"@,
        fg_color: "var(--color-primary-a50)"@,
        bg_color: "var(--color-surface-a0)"@,
        content_width: "76"@,
        content_font_size_px: 21,
    }
}

/// The settings as they are unless something else is set.
pub open spec fn default_config() -> ConfigView {
    ConfigView {
        open_in_browser: false,
        kill_timeout: -1isize,
        bind_addr: "localhost"@,
        bind_port: 0,
        css_variables: default_css_variables(),
    }
}

/// The truth value that `s` spells.
pub open spec fn truth_of(s: Seq<char>) -> Option<bool> {
    if s == "true"@ {
        Some(true)
    } else if s == "false"@ {
        Some(false)
    } else {
        None
    }
}

/// The settings `c` after the pair `p` is read. The pair sets what its
/// section and key name, and is passed over where they name nothing. The
/// port and the font size are numbers, and whether the reader opens in
/// the browser is `true` or `false`; any other value for them is an
/// error. The width of the text is kept as it is written.
pub open spec fn applied(c: ConfigView, p: PairView) -> Result<ConfigView, ConfigError> {
    if p.section == ""@ && p.key == "bind_addr"@ {
        Ok(ConfigView { bind_addr: p.value, ..c })
    } else if p.section == ""@ && p.key == "bind_port"@ {
        match unsigned(p.value, u16::MAX as nat) {
            Some(port) => Ok(ConfigView { bind_port: port as u16, ..c }),
            None => Err(ConfigError::InvalidBindPort),
        }
    } else if p.section == ""@ && p.key == "open_in_browser"@ {
        match truth_of(p.value) {
            Some(open) => Ok(ConfigView { open_in_browser: open, ..c }),
            None => Err(ConfigError::InvalidOpenInBrowser),
        }
    } else if p.section == "css"@ && p.key == "fg_color"@ {
        Ok(ConfigView { css_variables: CSSVariablesView { fg_color: p.value, ..c.css_variables }, ..c })
    } else if p.section == "css"@ && p.key == "bg_color"@ {
        Ok(ConfigView { css_variables: CSSVariablesView { bg_color: p.value, ..c.css_variables }, ..c })
    } else if p.section == "css"@ && p.key == "content_font_size_px"@ {
        match unsigned(p.value, u32::MAX as nat) {
            Some(size) => Ok(
                ConfigView {
                    css_variables: CSSVariablesView {
                        content_font_size_px: size as u32,
                        ..c.css_variables
                    },
                    ..c
                },
            ),
            None => Err(ConfigError::InvalidContentFontSize),
        }
    } else if p.section == "css"@ && p.key == "content_width"@ {
        Ok(
            ConfigView {
                css_variables: CSSVariablesView { content_width: p.value, ..c.css_variables },
                ..c
            },
        )
    } else if p.section == "css"@ && p.key == "font"@ {
        Ok(ConfigView { css_variables: CSSVariablesView { font: p.value, ..c.css_variables }, ..c })
    } else {
        Ok(c)
    }
}

/// The settings `c` after the pairs `pairs` are read in order, or the
/// error of the first pair that cannot be read.
pub open spec fn loaded(c: ConfigView, pairs: Seq<PairView>) -> Result<ConfigView, ConfigError>
    decreases pairs.len(),
{
    if pairs.len() == 0 {
        Ok(c)
    } else {
        match applied(c, pairs[0]) {
            Ok(next) => loaded(next, pairs.drop_first()),
            Err(e) => Err(e),
        }
    }
}

/// The pairs that the looks of a page are kept as.
pub open spec fn css_pairs_of(v: CSSVariablesView) -> Seq<PairView> {
    seq![
        PairView { section: "css"@, key: "fg_color"@, value: v.fg_color },
        PairView { section: "css"@, key: "bg_color"@, value: v.bg_color },
        PairView {
            section: "css"@,
            key: "content_font_size_px"@,
            value: digits_of(v.content_font_size_px as nat),
        },
        PairView { section: "css"@, key: "content_width"@, value: v.content_width },
        PairView { section: "css"@, key: "font"@, value: v.font },
    ]
}

/// The pairs that the settings are kept as.
pub open spec fn pairs_of(c: ConfigView) -> Seq<PairView> {
    seq![
        PairView {
            section: ""@,
            key: "open_in_browser"@,
            value: if c.open_in_browser {
                "true"@
            } else {
                "false"@
            },
        },
        PairView { section: ""@, key: "kill_timeout"@, value: signed_digits_of(c.kill_timeout as int) },
        PairView { section: ""@, key: "bind_addr"@, value: c.bind_addr },
        PairView { section: ""@, key: "bind_port"@, value: digits_of(c.bind_port as nat) },
    ] + css_pairs_of(c.css_variables)
}

/// The names of the settings differ from one another.
proof fn lemma_names_differ()
    ensures
        ""@ != "css"@,
        "open_in_browser"@ != "kill_timeout"@,
        "open_in_browser"@ != "bind_addr"@,
        "open_in_browser"@ != "bind_port"@,
        "kill_timeout"@ != "bind_addr"@,
        "kill_timeout"@ != "bind_port"@,
        "bind_addr"@ != "bind_port"@,
        "fg_color"@ != "bg_color"@,
        "fg_color"@ != "content_font_size_px"@,
        "fg_color"@ != "content_width"@,
        "fg_color"@ != "font"@,
        "bg_color"@ != "content_font_size_px"@,
        "bg_color"@ != "content_width"@,
        "bg_color"@ != "font"@,
        "content_font_size_px"@ != "content_width"@,
        "content_font_size_px"@ != "font"@,
        "content_width"@ != "font"@,
        "true"@ != "false"@,
{
    reveal_strlit("");
    reveal_strlit("css");
    reveal_strlit("open_in_browser");
    reveal_strlit("kill_timeout");
    reveal_strlit("bind_addr");
    reveal_strlit("bind_port");
    reveal_strlit("fg_color");
    reveal_strlit("bg_color");
    reveal_strlit("content_font_size_px");
    reveal_strlit("content_width");
    reveal_strlit("font");
    reveal_strlit("true");
    reveal_strlit("false");
    assert(""@.len() == 0 && "css"@.len() == 3);
    assert("open_in_browser"@.len() == 15 && "kill_timeout"@.len() == 12);
    assert("bind_addr"@.len() == 9 && "bind_port"@.len() == 9);
    assert("bind_addr"@[5] == 'a' && "bind_port"@[5] == 'p');
    assert("fg_color"@.len() == 8 && "bg_color"@.len() == 8);
    assert("fg_color"@[0] == 'f' && "bg_color"@[0] == 'b');
    assert("content_font_size_px"@.len() == 20 && "content_width"@.len() == 13);
    assert("font"@.len() == 4 && "true"@.len() == 4 && "false"@.len() == 5);
}

/// What is saved is what is loaded: the pairs that settings are kept as
/// give these settings back when they are read. Only the time after which
/// the reader ends is not read, and stays as it is by default.
pub proof fn lemma_saved_settings_load(c: ConfigView)
    ensures
        loaded(default_config(), pairs_of(c)) == Ok::<ConfigView, ConfigError>(
            ConfigView { kill_timeout: -1isize, ..c },
        ),
{
    lemma_names_differ();
    lemma_unsigned_of_digits(c.bind_port as nat, u16::MAX as nat);
    lemma_unsigned_of_digits(c.css_variables.content_font_size_px as nat, u32::MAX as nat);
    let pairs = pairs_of(c);
    let d = default_config();
    let c0 = ConfigView { open_in_browser: c.open_in_browser, ..d };
    let c1 = ConfigView { bind_addr: c.bind_addr, ..c0 };
    let c2 = ConfigView { bind_port: c.bind_port, ..c1 };
    let v = c.css_variables;
    let c3 = ConfigView { css_variables: CSSVariablesView { fg_color: v.fg_color, ..d.css_variables }, ..c2 };
    let c4 = ConfigView { css_variables: CSSVariablesView { bg_color: v.bg_color, ..c3.css_variables }, ..c3 };
    let c5 = ConfigView {
        css_variables: CSSVariablesView {
            content_font_size_px: v.content_font_size_px,
            ..c4.css_variables
        },
        ..c4
    };
    let c6 = ConfigView {
        css_variables: CSSVariablesView { content_width: v.content_width, ..c5.css_variables },
        ..c5
    };
    let c7 = ConfigView { css_variables: CSSVariablesView { font: v.font, ..c6.css_variables }, ..c6 };
    assert(applied(d, pairs[0]) == Ok::<ConfigView, ConfigError>(c0));
    assert(applied(c0, pairs[1]) == Ok::<ConfigView, ConfigError>(c0));
    assert(applied(c0, pairs[2]) == Ok::<ConfigView, ConfigError>(c1));
    assert(applied(c1, pairs[3]) == Ok::<ConfigView, ConfigError>(c2));
    assert(applied(c2, pairs[4]) == Ok::<ConfigView, ConfigError>(c3));
    assert(applied(c3, pairs[5]) == Ok::<ConfigView, ConfigError>(c4));
    assert(applied(c4, pairs[6]) == Ok::<ConfigView, ConfigError>(c5));
    assert(applied(c5, pairs[7]) == Ok::<ConfigView, ConfigError>(c6));
    assert(applied(c6, pairs[8]) == Ok::<ConfigView, ConfigError>(c7));
    lemma_loaded_step(d, pairs, 0, c0);
    lemma_loaded_step(c0, pairs, 1, c0);
    lemma_loaded_step(c0, pairs, 2, c1);
    lemma_loaded_step(c1, pairs, 3, c2);
    lemma_loaded_step(c2, pairs, 4, c3);
    lemma_loaded_step(c3, pairs, 5, c4);
    lemma_loaded_step(c4, pairs, 6, c5);
    lemma_loaded_step(c5, pairs, 7, c6);
    lemma_loaded_step(c6, pairs, 8, c7);
    assert(pairs.skip(9) =~= Seq::<PairView>::empty());
    assert(pairs.skip(0) =~= pairs);
}

/// Reading the pairs from position `i` on begins with the pair at `i`.
proof fn lemma_loaded_step(c: ConfigView, pairs: Seq<PairView>, i: int, next: ConfigView)
    requires
        0 <= i < pairs.len(),
        applied(c, pairs[i]) == Ok::<ConfigView, ConfigError>(next),
    ensures
        loaded(c, pairs.skip(i)) == loaded(next, pairs.skip(i + 1)),
{
    assert(pairs.skip(i).drop_first() =~= pairs.skip(i + 1));
}

impl Default for CSSVariables {
    fn default() -> (v: Self)
        ensures
            v@ == default_css_variables(),
    {
        CSSVariables {
            font: String::from_str("'Iosevka', sans-serif"),
            fg_color: String::from_str("var(--color-primary-a50)"),
            bg_color: String::from_str("var(--color-surface-a0)"),
            content_font_size_px: 21,
            content_width: String::from_str("76"),
        }
    }
}

impl Default for Config {
    fn default() -> (c: Self)
        ensures
            c@ == default_config(),
    {
        Config {
            bind_addr: String::from_str("localhost"),
            bind_port: 0,
            open_in_browser: false,
            kill_timeout: -1,
            css_variables: CSSVariables::default(),
        }
    }
}

/// A pair of owned strings.
fn pair(section: &str, key: &str, value: String) -> (p: Pair)
    ensures
        p@ == (PairView { section: section@, key: key@, value: value@ }),
{
    Pair { section: String::from_str(section), key: String::from_str(key), value }
}

impl CSSVariables {
    /// The pairs that the looks of a page are kept as.
    pub fn to_pairs(&self) -> (pairs: Vec<Pair>)
        ensures
            pairs.deep_view() == css_pairs_of(self@),
    {
        let mut pairs: Vec<Pair> = Vec::new();
        pairs.push(pair("css", "fg_color", self.fg_color.clone()));
        pairs.push(pair("css", "bg_color", self.bg_color.clone()));
        pairs.push(
            pair("css", "content_font_size_px", decimal_string(self.content_font_size_px as u64)),
        );
        pairs.push(pair("css", "content_width", self.content_width.clone()));
        pairs.push(pair("css", "font", self.font.clone()));
        assert(pairs.deep_view() =~= css_pairs_of(self@));
        pairs
    }
}

impl Config {
    /// The settings `self` after the pair `p` is read. Where the pair
    /// cannot be read the settings stay as they are.
    pub fn set(&mut self, p: &Pair) -> (r: Result<(), ConfigError>)
        ensures
            match r {
                Ok(()) => applied(old(self)@, p@) == Ok::<ConfigView, ConfigError>(final(self)@),
                Err(e) => applied(old(self)@, p@) == Err::<ConfigView, ConfigError>(e)
                    && final(self)@ == old(self)@,
            },
    {
        let section = p.section.as_str();
        let key = p.key.as_str();
        let value = p.value.as_str();
        proof {
            reveal_strlit("");
            reveal_strlit("css");
            assert(""@.len() != "css"@.len());
        }
        if same_text(section, "") {
            if same_text(key, "bind_addr") {
                self.bind_addr = p.value.clone();
            } else if same_text(key, "bind_port") {
                match parse_unsigned(value, u16::MAX as u64) {
                    Some(port) => {
                        self.bind_port = port as u16;
                    },
                    None => { return Err(ConfigError::InvalidBindPort); },
                }
            } else if same_text(key, "open_in_browser") {
                if same_text(value, "true") {
                    self.open_in_browser = true;
                } else if same_text(value, "false") {
                    self.open_in_browser = false;
                } else {
                    return Err(ConfigError::InvalidOpenInBrowser);
                }
            }
        } else if same_text(section, "css") {
            if same_text(key, "fg_color") {
                self.css_variables.fg_color = p.value.clone();
            } else if same_text(key, "bg_color") {
                self.css_variables.bg_color = p.value.clone();
            } else if same_text(key, "content_font_size_px") {
                match parse_unsigned(value, u32::MAX as u64) {
                    Some(size) => {
                        self.css_variables.content_font_size_px = size as u32;
                    },
                    None => { return Err(ConfigError::InvalidContentFontSize); },
                }
            } else if same_text(key, "content_width") {
                self.css_variables.content_width = p.value.clone();
            } else if same_text(key, "font") {
                self.css_variables.font = p.value.clone();
            }
        }
        Ok(())
    }

    /// The settings that the pairs of a parser give, set one after the
    /// other on top of the settings as they are by default.
    pub fn try_from(ini: Parse) -> (r: Result<Config, ConfigError>)
        ensures
            match r {
                Ok(c) => loaded(default_config(), ini.remaining()) == Ok::<ConfigView, ConfigError>(
                    c@,
                ),
                Err(e) => loaded(default_config(), ini.remaining()) == Err::<
                    ConfigView,
                    ConfigError,
                >(e),
            },
    {
        let mut parser = ini;
        let mut x = Config::default();
        loop
            invariant
                loaded(default_config(), ini.remaining()) == loaded(x@, parser.remaining()),
            decreases parser.remaining().len(),
        {
            match parser.next() {
                None => {
                    return Ok(x);
                },
                Some(p) => match x.set(&p) {
                    Ok(()) => {},
                    Err(e) => {
                        return Err(e);
                    },
                },
            }
        }
    }

    /// The pairs that the settings are kept as.
    pub fn to_pairs(&self) -> (pairs: Vec<Pair>)
        ensures
            pairs.deep_view() == pairs_of(self@),
    {
        let mut pairs: Vec<Pair> = Vec::new();
        pairs.push(
            pair(
                "",
                "open_in_browser",
                String::from_str(
                    if self.open_in_browser {
                        "true"
                    } else {
                        "false"
                    },
                ),
            ),
        );
        pairs.push(pair("", "kill_timeout", signed_decimal_string(self.kill_timeout as i64)));
        pairs.push(pair("", "bind_addr", self.bind_addr.clone()));
        pairs.push(pair("", "bind_port", decimal_string(self.bind_port as u64)));
        let mut css = self.css_variables.to_pairs();
        let ghost head = pairs.deep_view();
        let ghost tail = css.deep_view();
        pairs.append(&mut css);
        assert(pairs.deep_view() =~= head + tail);
        assert(pairs.deep_view() =~= pairs_of(self@));
        pairs
    }
}

} // verus!
