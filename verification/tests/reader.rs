use slime::parser::ini::{parse_str, Pair, Parse};
use slime::parser::UnParser;
use slime::reader::cba::{
    bytes_less, check_media_type, is_image, media_type_of, page_order, CBAReader, Error,
};
use slime::reader::config::{CSSVariables, Config, ConfigError};
use slime::reader::styles::{inject_styles, inject_styles_into, XmlToken};
use slime::reader::{
    parse_page_request, parse_step, route, step_font_size, turn_page, Method, PageRequest, Route,
    Step,
};

const ZIP_HEADER: [u8; 8] = [0x50, 0x4B, 0x03, 0x04, 0x14, 0x00, 0x00, 0x00];
const PNG_HEADER: [u8; 8] = [0x89, 0x50, 0x4E, 0x47, 0x0D, 0x0A, 0x1A, 0x0A];

fn strings(v: &[&str]) -> Vec<String> {
    v.iter().map(|x| x.to_string()).collect()
}

#[test]
fn page_requests() {
    assert!(matches!(parse_page_request("+"), Some(PageRequest::Next)));
    assert!(matches!(parse_page_request(" - \n"), Some(PageRequest::Previous)));
    assert!(matches!(parse_page_request("12"), Some(PageRequest::Goto(12))));
    assert!(matches!(parse_page_request("0"), Some(PageRequest::Goto(0))));
    assert!(parse_page_request("12\n").is_none());
    assert!(parse_page_request("").is_none());
    assert!(parse_page_request("next").is_none());
    assert!(matches!(parse_step(" +"), Some(Step::Up)));
    assert!(matches!(parse_step("-"), Some(Step::Down)));
    assert!(parse_step("++").is_none());
    assert!(parse_step("1").is_none());
}

#[test]
fn page_turns_stay_inside_the_book() {
    assert_eq!(turn_page(0, 10, PageRequest::Next), 1);
    assert_eq!(turn_page(8, 10, PageRequest::Next), 9);
    assert_eq!(turn_page(9, 10, PageRequest::Next), 9);
    assert_eq!(turn_page(0, 10, PageRequest::Previous), 0);
    assert_eq!(turn_page(5, 10, PageRequest::Previous), 4);
    assert_eq!(turn_page(3, 10, PageRequest::Goto(1)), 0);
    assert_eq!(turn_page(3, 10, PageRequest::Goto(0)), 0);
    assert_eq!(turn_page(3, 10, PageRequest::Goto(10)), 9);
    assert_eq!(turn_page(3, 10, PageRequest::Goto(11)), 9);
    assert_eq!(turn_page(3, 10, PageRequest::Goto(usize::MAX)), 9);
    assert_eq!(turn_page(0, 1, PageRequest::Next), 0);
    assert_eq!(turn_page(usize::MAX, 10, PageRequest::Next), 9);
}

#[test]
fn font_size_steps() {
    assert_eq!(step_font_size(21, Step::Up), 23);
    assert_eq!(step_font_size(21, Step::Down), 19);
    assert_eq!(step_font_size(3, Step::Down), 1);
    assert_eq!(step_font_size(2, Step::Down), 2);
    assert_eq!(step_font_size(u32::MAX - 2, Step::Up), u32::MAX);
}

#[test]
fn routes() {
    assert!(matches!(route("/", Method::Get), Route::CurrentPage));
    assert!(matches!(route("/reader", Method::Get), Route::CurrentPage));
    assert!(matches!(route("/", Method::Post), Route::NotFound));
    assert!(matches!(route("/api/quit", Method::Post), Route::Quit));
    assert!(matches!(route("/api/keepalive", Method::Post), Route::KeepAlive));
    assert!(matches!(route("/api/page", Method::Post), Route::Page));
    assert!(matches!(route("/api/font-size", Method::Post), Route::FontSize));
    assert!(matches!(route("/api/invert-text-color", Method::Post), Route::InvertTextColor));
    assert!(matches!(route("/api/content-width", Method::Post), Route::ContentWidth));
    assert!(matches!(route("/api/quit", Method::Other), Route::NotFound));
    assert!(matches!(route("/api/other", Method::Post), Route::NotFound));
    match route("/content/OEBPS/ch1.xhtml", Method::Get) {
        Route::Content(path) => assert_eq!(path, "OEBPS/ch1.xhtml"),
        other => panic!("{other:?}"),
    }
    match route("/content/", Method::Get) {
        Route::Content(path) => assert_eq!(path, ""),
        other => panic!("{other:?}"),
    }
    match route("//OEBPS/ch1.xhtml", Method::Get) {
        Route::Resource(path) => assert_eq!(path, "OEBPS/ch1.xhtml"),
        other => panic!("{other:?}"),
    }
    match route("/api/quit", Method::Get) {
        Route::Resource(path) => assert_eq!(path, "api/quit"),
        other => panic!("{other:?}"),
    }
    match route("/content", Method::Get) {
        Route::Resource(path) => assert_eq!(path, "content"),
        other => panic!("{other:?}"),
    }
}

#[test]
fn styles_go_before_the_end_of_the_head() {
    let src = "<html><head><title>t</title></head><body class=\"x\">text</body></html>";
    let out = inject_styles(src, "p { color: red; }").unwrap();
    assert_eq!(
        out,
        "<html><head><title>t</title><style type=\"text/css\">\np { color: red; }\n</style>\n</head><body class=\"x\">text</body></html>"
    );
}

#[test]
fn document_without_head_is_unchanged() {
    let src = "<?xml version=\"1.0\"?><a b=\"c\" d='e'><!-- c --><f/>t</a>";
    assert_eq!(inject_styles(src, "x").unwrap(), src);
}

#[test]
fn prefixed_head_counts_by_its_local_name() {
    let out = inject_styles("<h:head></h:head>", "S").unwrap();
    assert_eq!(out, "<h:head><style type=\"text/css\">\nS\n</style>\n</h:head>");
}

#[test]
fn malformed_document_is_refused() {
    assert_eq!(inject_styles("<a><b></a", "x"), None);
    assert_eq!(inject_styles("<a b=c>", "x"), None);
}

#[test]
fn tokens_are_written_one_after_the_other() {
    let tokens = vec![
        XmlToken::Other("<head".to_string()),
        XmlToken::Attribute("a=\"1\"".to_string()),
        XmlToken::Other(">".to_string()),
        XmlToken::Close("body".to_string(), "</body>".to_string()),
        XmlToken::Close("head".to_string(), "</head>".to_string()),
    ];
    assert_eq!(
        inject_styles_into(&tokens, "CSS"),
        "<head a=\"1\"></body><style type=\"text/css\">\nCSS\n</style>\n</head>"
    );
    assert_eq!(inject_styles_into(&Vec::new(), "CSS"), "");
}

#[test]
fn media_types() {
    assert_eq!(media_type_of("page01.JPG"), Some("image".to_string()));
    assert_eq!(media_type_of("dir/cover.png"), Some("image".to_string()));
    assert_eq!(media_type_of("notes.txt"), Some("text".to_string()));
    assert_eq!(media_type_of("README"), None);
    assert_eq!(media_type_of("dir.d/"), media_type_of("x.d"));
    assert!(is_image(&Some("image".to_string())));
    assert!(!is_image(&Some("images".to_string())));
    assert!(!is_image(&Some("Image".to_string())));
    assert!(!is_image(&Some("image/png".to_string())));
    assert!(!is_image(&Some("".to_string())));
    assert!(!is_image(&None));
}

#[test]
fn only_zip_archives_are_read() {
    assert!(check_media_type(Some("application/zip".to_string())).is_ok());
    assert!(matches!(check_media_type(None), Err(Error::UnknownFileType)));
    match check_media_type(Some("application/vnd.rar".to_string())) {
        Err(Error::InvalidFileType(m)) => assert_eq!(m, "application/vnd.rar"),
        other => panic!("{other:?}"),
    }
    assert!(matches!(CBAReader::read(&[1, 2, 3], &Vec::new()), Err(Error::UnknownFileType)));
    match CBAReader::read(&PNG_HEADER, &Vec::new()) {
        Err(Error::InvalidFileType(m)) => assert_eq!(m, "image/png"),
        other => panic!("{:?}", other.map(|r| r.page_count())),
    }
}

#[test]
fn pages_are_the_images_in_the_order_of_their_names() {
    let names = strings(&[
        "b/02.png", "info.txt", "a/10.jpg", "a/02.jpg", "cover.PNG", "a/", "a/02.jpg", "z", "a/1.gif",
    ]);
    let mut reader = CBAReader::read(&ZIP_HEADER, &names).unwrap();
    assert_eq!(reader.page_count(), 6);
    let order: Vec<usize> = (0..6).map(|p| reader.page(p).unwrap()).collect();
    assert_eq!(order, vec![3, 6, 8, 2, 0, 4]);
    assert!(matches!(reader.page(6), Err(Error::IndexOutOfBounds(6))));
    assert_eq!(reader.get_current_page(), 0);
    assert_eq!(reader.set_current_page(4), Some(0));
    assert_eq!(reader.get_current_page(), 4);
    assert_eq!(reader.set_current_page(6), None);
    assert_eq!(reader.get_current_page(), 4);
    assert_eq!(reader.set_current_page(0), Some(4));
}

#[test]
fn page_order_on_given_marks() {
    let keys: Vec<Vec<u8>> = ["b", "a", "", "ab", "a", "\u{e9}"].iter().map(|k| k.as_bytes().to_vec()).collect();
    assert_eq!(page_order(&keys, &vec![true; 6]), vec![2, 1, 4, 3, 0, 5]);
    assert_eq!(page_order(&keys, &vec![true, false, false, true, true, false]), vec![4, 3, 0]);
    assert_eq!(page_order(&keys, &vec![false; 6]), Vec::<usize>::new());
    assert_eq!(page_order(&Vec::new(), &Vec::new()), Vec::<usize>::new());
    assert!(bytes_less(&b"a".to_vec(), &b"ab".to_vec()));
    assert!(!bytes_less(&b"ab".to_vec(), &b"ab".to_vec()));
    assert!(bytes_less(&b"Z".to_vec(), &b"a".to_vec()));
    assert!(!bytes_less(&b"b".to_vec(), &b"ab".to_vec()));
    assert!(!bytes_less(&Vec::new(), &Vec::new()));
}

#[test]
fn empty_archive_has_no_pages() {
    let mut reader = CBAReader::read(&ZIP_HEADER, &strings(&["a.txt"])).unwrap();
    assert_eq!(reader.page_count(), 0);
    assert_eq!(reader.get_current_page(), 0);
    assert_eq!(reader.set_current_page(0), None);
    assert!(matches!(reader.page(0), Err(Error::IndexOutOfBounds(0))));
}

#[test]
fn default_settings() {
    let c = Config::default();
    assert_eq!(c.bind_addr, "localhost");
    assert_eq!(c.bind_port, 0);
    assert!(!c.open_in_browser);
    assert_eq!(c.kill_timeout, -1);
    let v = CSSVariables::default();
    assert_eq!(v.font, "'Iosevka', sans-serif");
    assert_eq!(v.fg_color, "var(--color-primary-a50)");
    assert_eq!(v.bg_color, "var(--color-surface-a0)");
    assert_eq!(v.content_font_size_px, 21);
    assert_eq!(v.content_width, "76");
}

#[test]
fn settings_are_kept_as_nine_pairs() {
    let mut c = Config::default();
    c.kill_timeout = -15;
    c.bind_port = 8080;
    c.open_in_browser = true;
    let text = c.to_pairs().serialize_to_string();
    assert_eq!(
        text,
        "open_in_browser=true\nkill_timeout=-15\nbind_addr=localhost\nbind_port=8080\n[css]\n\
         fg_color=var(--color-primary-a50)\nbg_color=var(--color-surface-a0)\n\
         content_font_size_px=21\ncontent_width=76\nfont='Iosevka', sans-serif\n"
    );
    let back = Config::try_from(Parse::from(&text)).unwrap();
    assert_eq!(back.bind_port, 8080);
    assert!(back.open_in_browser);
    assert_eq!(back.kill_timeout, -1);
    assert_eq!(back.bind_addr, "localhost");
    assert_eq!(back.css_variables.font, "'Iosevka', sans-serif");
    assert_eq!(back.css_variables.content_width, "76");
    assert_eq!(back.css_variables.content_font_size_px, 21);
}

#[test]
fn settings_are_read_pair_by_pair() {
    let text = "bind_addr=0.0.0.0\nbind_port=+80\nunknown=1\n[css]\nfont=Serif\ncontent_width=12.5\n\
                content_font_size_px=18\nbind_port=1\n[other]\nfg_color=x\n[css]\nbg_color=#000\nfg_color=#fff\n";
    let c = Config::try_from(Parse::from(text)).unwrap();
    assert_eq!(c.bind_addr, "0.0.0.0");
    assert_eq!(c.bind_port, 80);
    assert_eq!(c.css_variables.font, "Serif");
    assert_eq!(c.css_variables.content_width, "12.5");
    assert_eq!(c.css_variables.content_font_size_px, 18);
    assert_eq!(c.css_variables.bg_color, "#000");
    assert_eq!(c.css_variables.fg_color, "#fff");
}

#[test]
fn first_unreadable_setting_is_the_error() {
    let port = Config::try_from(Parse::from("bind_port=70000\nopen_in_browser=maybe\n"));
    assert_eq!(port.unwrap_err(), ConfigError::InvalidBindPort);
    let open = Config::try_from(Parse::from("open_in_browser=True\nbind_port=x\n"));
    assert_eq!(open.unwrap_err(), ConfigError::InvalidOpenInBrowser);
    let size = Config::try_from(Parse::from("[css]\ncontent_font_size_px=-3\n"));
    assert_eq!(size.unwrap_err(), ConfigError::InvalidContentFontSize);
    let mut c = Config::default();
    let bad = Pair { section: "".to_string(), key: "bind_port".to_string(), value: "".to_string() };
    assert_eq!(c.set(&bad), Err(ConfigError::InvalidBindPort));
    assert_eq!(c.bind_port, 0);
    for p in parse_str("open_in_browser=true\nopen_in_browser=false") {
        assert_eq!(c.set(&p), Ok(()));
    }
    assert!(!c.open_in_browser);
}
