//! What a book reader decides: which page a request leads to, what a
//! request asks for, and what a document looks like once the reader's
//! styles are in it.

use crate::text::{chars_of, same_text, starts_with, string_of, trim, trim_range};
use crate::util::decimal::{parse_unsigned, unsigned};
use crate::util::path::trim_start_slashes;
use vstd::prelude::*;

pub mod cba;
pub mod config;
pub mod styles;

verus! {

/// A request to turn the pages.
#[derive(Debug)]
pub enum PageRequest {
    /// To the next page.
    Next,
    /// To the page before.
    Previous,
    /// To the page with this number, counted from one.
    Goto(usize),
}

/// A request to make something larger or smaller.
#[derive(Debug)]
pub enum Step {
    Up,
    Down,
}

/// What the body of a request says, where it asks for more or less: `+`
/// or `-`, with whitespace around it or without.
pub open spec fn step_of(body: Seq<char>) -> Option<Step> {
    if trim(body) == seq!['+'] {
        Some(Step::Up)
    } else if trim(body) == seq!['-'] {
        Some(Step::Down)
    } else {
        None
    }
}

/// What the body of a request says, where it asks for a page: a step, or
/// the number of a page in decimal notation. Around a number no
/// whitespace may stand.
pub open spec fn page_request_of(body: Seq<char>) -> Option<PageRequest> {
    match (step_of(body), unsigned(body, usize::MAX as nat)) {
        (Some(Step::Up), _) => Some(PageRequest::Next),
        (Some(Step::Down), _) => Some(PageRequest::Previous),
        (None, Some(page)) => Some(PageRequest::Goto(page as usize)),
        (None, None) => None,
    }
}

/// The page that a request leads to, counted from zero, in a book of
/// `page_count` pages of which page `current` is open: the next page
/// unless the last is open, the page before unless the first is open, or
/// the page asked for by its number, and the last page where that number
/// is too large.
pub open spec fn turned(current: usize, page_count: usize, request: PageRequest) -> int {
    let wanted: int = match request {
        PageRequest::Next => if current + 1 < page_count {
            current + 1
        } else {
            current as int
        },
        PageRequest::Previous => if current != 0 {
            current - 1
        } else {
            0
        },
        PageRequest::Goto(page) => if page >= 1 {
            page - 1
        } else {
            0
        },
    };
    if wanted > page_count - 1 {
        page_count - 1
    } else {
        wanted
    }
}

/// The font size after a step: two more, or two less; but the step down
/// that would lead to zero is not taken.
pub open spec fn font_size_of(size: u32, step: Step) -> int {
    match step {
        Step::Up => size + 2,
        Step::Down => if size - 2 != 0 {
            size - 2
        } else {
            size as int
        },
    }
}

/// How a request was made.
#[derive(Debug)]
pub enum Method {
    Get,
    Post,
    Other,
}

/// What a request asks the reader for.
#[derive(Debug)]
pub enum Route {
    /// The page that is open.
    CurrentPage,
    /// The end of the reader.
    Quit,
    /// Nothing: the reader is still in use.
    KeepAlive,
    /// Another page.
    Page,
    /// Another font size.
    FontSize,
    /// The colors of text and background the other way round.
    InvertTextColor,
    /// Another width of the text.
    ContentWidth,
    /// A part of the book, as it stands in the book.
    Content(String),
    /// A page of the book inside the reader, or a file of the book.
    Resource(String),
    /// Nothing that the reader has.
    NotFound,
}

/// What a [`Route`] holds.
pub enum RouteView {
    CurrentPage,
    Quit,
    KeepAlive,
    Page,
    FontSize,
    InvertTextColor,
    ContentWidth,
    Content(Seq<char>),
    Resource(Seq<char>),
    NotFound,
}

impl View for Route {
    type V = RouteView;

    open spec fn view(&self) -> RouteView {
        match self {
            Route::CurrentPage => RouteView::CurrentPage,
            Route::Quit => RouteView::Quit,
            Route::KeepAlive => RouteView::KeepAlive,
            Route::Page => RouteView::Page,
            Route::FontSize => RouteView::FontSize,
            Route::InvertTextColor => RouteView::InvertTextColor,
            Route::ContentWidth => RouteView::ContentWidth,
            Route::Content(path) => RouteView::Content(path@),
            Route::Resource(path) => RouteView::Resource(path@),
            Route::NotFound => RouteView::NotFound,
        }
    }
}

/// What a request for `url` asks for. The commands are posted to fixed
/// addresses. Everything else is fetched: below `/content/` the parts of
/// the book, and at any other address, taken without the slashes it
/// begins with, a page or a file of the book.
pub open spec fn route_of(url: Seq<char>, method: Method) -> RouteView {
    match method {
        Method::Get => if url == "/"@ || url == "/reader"@ {
            RouteView::CurrentPage
        } else if starts_with(url, "/content/"@) {
            RouteView::Content(url.skip("/content/"@.len() as int))
        } else {
            RouteView::Resource(trim_start_slashes(url))
        },
        Method::Post => if url == "/api/quit"@ {
            RouteView::Quit
        } else if url == "/api/keepalive"@ {
            RouteView::KeepAlive
        } else if url == "/api/page"@ {
            RouteView::Page
        } else if url == "/api/font-size"@ {
            RouteView::FontSize
        } else if url == "/api/invert-text-color"@ {
            RouteView::InvertTextColor
        } else if url == "/api/content-width"@ {
            RouteView::ContentWidth
        } else {
            RouteView::NotFound
        },
        Method::Other => RouteView::NotFound,
    }
}

/// What the body of a request says, where it asks for more or less.
pub fn parse_step(body: &str) -> (r: Option<Step>)
    ensures
        r == step_of(body@),
{
    let v = chars_of(body);
    assert(v@.subrange(0, v.len() as int) =~= v@);
    let (a, b) = trim_range(&v, 0, v.len());
    let ghost t = v@.subrange(a as int, b as int);
    if b - a == 1 && v[a] == '+' {
        assert(t =~= seq!['+']);
        Some(Step::Up)
    } else if b - a == 1 && v[a] == '-' {
        assert(t =~= seq!['-']);
        Some(Step::Down)
    } else {
        assert(t != seq!['+'] && t != seq!['-']) by {
            if t.len() == 1 {
                assert(t[0] == v@[a as int]);
            }
        }
        None
    }
}

/// What the body of a request says, where it asks for a page.
pub fn parse_page_request(body: &str) -> (r: Option<PageRequest>)
    ensures
        r == page_request_of(body@),
{
    match parse_step(body) {
        Some(Step::Up) => Some(PageRequest::Next),
        Some(Step::Down) => Some(PageRequest::Previous),
        None => match parse_unsigned(body, usize::MAX as u64) {
            Some(page) => Some(PageRequest::Goto(page as usize)),
            None => None,
        },
    }
}

/// The page that a request leads to, in a book that has pages.
pub fn turn_page(current: usize, page_count: usize, request: PageRequest) -> (page: usize)
    requires
        page_count > 0,
    ensures
        page == turned(current, page_count, request),
        page < page_count,
{
    let wanted = match request {
        PageRequest::Next => if current < page_count - 1 {
            current + 1
        } else {
            current
        },
        PageRequest::Previous => if current != 0 {
            current - 1
        } else {
            current
        },
        PageRequest::Goto(page) => if page >= 1 {
            page - 1
        } else {
            0
        },
    };
    if wanted > page_count - 1 {
        page_count - 1
    } else {
        wanted
    }
}

/// The font size after a step.
pub fn step_font_size(size: u32, step: Step) -> (r: u32)
    requires
        step is Up ==> size <= u32::MAX - 2,
        step is Down ==> size >= 2,
    ensures
        r == font_size_of(size, step),
{
    match step {
        Step::Up => size + 2,
        Step::Down => if size - 2 != 0 {
            size - 2
        } else {
            size
        },
    }
}

/// What a request for `url` asks for.
pub fn route(url: &str, method: Method) -> (r: Route)
    ensures
        r@ == route_of(url@, method),
{
    match method {
        Method::Get => {
            if same_text(url, "/") || same_text(url, "/reader") {
                return Route::CurrentPage;
            }
            let v = chars_of(url);
            let n = v.len();
            proof {
                reveal_strlit("/content/");
            }
            if n >= 9 && v[0] == '/' && v[1] == 'c' && v[2] == 'o' && v[3] == 'n' && v[4] == 't'
                && v[5] == 'e' && v[6] == 'n' && v[7] == 't' && v[8] == '/' {
                assert(v@.take(9) =~= "/content/"@);
                assert(v@.skip(9) =~= v@.subrange(9, n as int));
                return Route::Content(string_of(&v, 9, n));
            }
            assert(!starts_with(url@, "/content/"@)) by {
                if n >= 9 {
                    let t = v@.take(9);
                    assert(t[0] == v@[0] && t[1] == v@[1] && t[2] == v@[2] && t[3] == v@[3] && t[4]
                        == v@[4] && t[5] == v@[5] && t[6] == v@[6] && t[7] == v@[7] && t[8]
                        == v@[8]);
                }
            }
            let mut a: usize = 0;
            assert(v@.skip(0) =~= v@);
            while a < n && v[a] == '/'
                invariant
                    a <= n == v.len(),
                    trim_start_slashes(v@) == trim_start_slashes(v@.skip(a as int)),
                decreases n - a,
            {
                assert(v@.skip(a as int).drop_first() =~= v@.skip(a + 1));
                a += 1;
            }
            assert(v@.skip(a as int) =~= v@.subrange(a as int, n as int));
            Route::Resource(string_of(&v, a, n))
        },
        Method::Post => {
            if same_text(url, "/api/quit") {
                Route::Quit
            } else if same_text(url, "/api/keepalive") {
                Route::KeepAlive
            } else if same_text(url, "/api/page") {
                Route::Page
            } else if same_text(url, "/api/font-size") {
                Route::FontSize
            } else if same_text(url, "/api/invert-text-color") {
                Route::InvertTextColor
            } else if same_text(url, "/api/content-width") {
                Route::ContentWidth
            } else {
                Route::NotFound
            }
        },
        Method::Other => Route::NotFound,
    }
}

} // verus!
