//! The splash window that is shown while the app starts.

use crate::archive::{bundled_file, bytes_view, holds, read_bundled};
use crate::codec::{base64_encode, base64_text};
use crate::config::SplashSettings;
use crate::html::{escape_html, escaped};
use crate::text::{concat3, maybe};
use vstd::prelude::*;
use vstd::string::*;

verus! {

/// The settings of a splash window of an app that names none.
pub fn splash_or_default(settings: Option<SplashSettings>) -> (r: SplashSettings)
    ensures
        match settings {
            Some(settings) => r == settings,
            None => {
                &&& r.enabled
                &&& r.width == 360
                &&& r.height == 200
                &&& r.background is None
                &&& r.image is None
                &&& r.text is None
                &&& r.auto_hide
            },
        },
{
    match settings {
        Some(settings) => settings,
        None => SplashSettings {
            enabled: true,
            width: 360,
            height: 200,
            background: None,
            image: None,
            text: None,
            auto_hide: true,
        },
    }
}

/// Half of what a window leaves free.
pub open spec fn centred(screen: u32, window: u32) -> int {
    if screen > window {
        (screen - window) / 2
    } else {
        0
    }
}

/// The place of a window in the middle of the screen; at the edge where it does
/// not fit.
pub fn splash_position(screen: (u32, u32), window: (u32, u32)) -> (place: (i32, i32))
    ensures
        place.0 == centred(screen.0, window.0),
        place.1 == centred(screen.1, window.1),
{
    let x: u32 = if screen.0 > window.0 {
        (screen.0 - window.0) / 2
    } else {
        0
    };
    let y: u32 = if screen.1 > window.1 {
        (screen.1 - window.1) / 2
    } else {
        0
    };
    (x as i32, y as i32)
}

/// The tag of an image in base64.
pub open spec fn inline_image(data: Seq<char>) -> Seq<char> {
    "<img src=\"data:image/png;base64,"@ + data
        + "\" style=\"max-width:70%;max-height:55%;object-fit:contain;margin-bottom:12px\">"@
}

/// The tag of an image in base64.
pub fn image_tag_of(data: &str) -> (r: String)
    ensures
        r@ == inline_image(data@),
{
    concat3(
        "<img src=\"data:image/png;base64,",
        data,
        "\" style=\"max-width:70%;max-height:55%;object-fit:contain;margin-bottom:12px\">",
    )
}

/// The tag of the splash image: none where there is no image.
pub open spec fn image_tag(image: Option<Seq<u8>>) -> Seq<char> {
    match image {
        Some(bytes) => if bytes.len() > 0 {
            inline_image(base64_text(bytes))
        } else {
            Seq::empty()
        },
        None => Seq::empty(),
    }
}

/// The text under the name of the app.
pub open spec fn splash_line(text: Option<Seq<char>>) -> Seq<char> {
    match text {
        Some(text) => text,
        None => "Loading&hellip;"@,
    }
}

/// The background of the splash window.
pub open spec fn splash_background(background: Option<Seq<char>>) -> Seq<char> {
    match background {
        Some(background) => background,
        None => "linear-gradient(135deg,#214771,#2f5d94)"@,
    }
}

/// The page of the splash window. The name of the app and the text are written
/// out, so they open no tag.
pub open spec fn splash_page(
    name: Seq<char>,
    background: Option<Seq<char>>,
    text: Option<Seq<char>>,
    image: Option<Seq<u8>>,
) -> Seq<char> {
    "<!DOCTYPE html><html><head><meta charset=\"utf-8\"><style>html,body{margin:0;height:100%;background:"@
        + splash_background(background)
        + ";color:#fff;font-family:'Segoe UI',Arial,sans-serif;display:flex;flex-direction:column;align-items:center;justify-content:center;overflow:hidden;user-select:none}.logo{font-size:26px;font-weight:800;letter-spacing:2px}.sub{font-size:12px;opacity:.8;margin-top:8px}</style></head><body>"@
        + image_tag(image) + "<div class=\"logo\">"@ + escaped(name)
        + "</div><div class=\"sub\">"@ + escaped(splash_line(text)) + "</div></body></html>"@
}

/// The page of the splash window.
pub fn splash_html(name: &str, settings: &SplashSettings, image: &Option<Vec<u8>>) -> (page: String)
    requires
        image matches Some(bytes) ==> bytes@.len() <= usize::MAX / 4,
    ensures
        page@ == splash_page(
            name@,
            maybe(settings.background),
            maybe(settings.text),
            bytes_view(*image),
        ),
{
    let mut page =
        "<!DOCTYPE html><html><head><meta charset=\"utf-8\"><style>html,body{margin:0;height:100%;background:".to_owned();
    match &settings.background {
        Some(background) => page.append(background.as_str()),
        None => page.append("linear-gradient(135deg,#214771,#2f5d94)"),
    }
    page.append(
        ";color:#fff;font-family:'Segoe UI',Arial,sans-serif;display:flex;flex-direction:column;align-items:center;justify-content:center;overflow:hidden;user-select:none}.logo{font-size:26px;font-weight:800;letter-spacing:2px}.sub{font-size:12px;opacity:.8;margin-top:8px}</style></head><body>",
    );
    let tag = match image {
        Some(bytes) => if bytes.len() > 0 {
            let data = base64_encode(bytes);
            image_tag_of(data.as_str())
        } else {
            String::new()
        },
        None => String::new(),
    };
    assert(tag@ == image_tag(bytes_view(*image)));
    page.append(tag.as_str());
    page.append("<div class=\"logo\">");
    let safe_name = escape_html(name);
    page.append(safe_name.as_str());
    page.append("</div><div class=\"sub\">");
    let safe_text = match &settings.text {
        Some(text) => escape_html(text.as_str()),
        None => escape_html("Loading&hellip;"),
    };
    page.append(safe_text.as_str());
    page.append("</div></body></html>");
    page
}

/// Reads the splash image of a bundle.
pub fn bundle_splash_image(bundle: &[u8]) -> (r: Option<Vec<u8>>)
    ensures
        bytes_view(r) == bundled_file(bundle@, "_splash.png"@),
{
    read_bundled(bundle, "_splash.png")
}

/// A window in the middle of the screen has as much free on one side as on the
/// other, but for one pixel. One that does not fit begins at the edge.
pub proof fn law_windows_stand_in_the_middle(screen: u32, window: u32)
    ensures
        screen >= window ==> {
            let before = centred(screen, window);
            let behind = screen - window - before;
            0 <= before <= behind <= before + 1
        },
        screen < window ==> centred(screen, window) == 0,
{
}

/// The page of the splash window shows its image, then the name of the app and then
/// the line of text, both written out, on the background that is given; each of the
/// three that is missing is made good by its own default.
pub proof fn law_splash_page_shows_what_is_given(
    name: Seq<char>,
    background: Seq<char>,
    line: Seq<char>,
    image: Seq<u8>,
)
    ensures
        ({
            let page = splash_page(name, Some(background), Some(line), Some(image));
            let picture = if image.len() > 0 {
                inline_image(base64_text(image))
            } else {
                Seq::empty()
            };
            &&& "<!DOCTYPE html>"@.is_prefix_of(page)
            &&& holds(page, "background:"@ + background + ";"@)
            &&& ("<body>"@ + picture + "<div class=\"logo\">"@ + escaped(name)
                + "</div><div class=\"sub\">"@ + escaped(line)
                + "</div></body></html>"@).is_suffix_of(page)
        }),
{
    let a =
        "<!DOCTYPE html><html><head><meta charset=\"utf-8\"><style>html,body{margin:0;height:100%;background:"@;
    let b =
        ";color:#fff;font-family:'Segoe UI',Arial,sans-serif;display:flex;flex-direction:column;align-items:center;justify-content:center;overflow:hidden;user-select:none}.logo{font-size:26px;font-weight:800;letter-spacing:2px}.sub{font-size:12px;opacity:.8;margin-top:8px}</style></head><body>"@;
    reveal_strlit(
        "<!DOCTYPE html><html><head><meta charset=\"utf-8\"><style>html,body{margin:0;height:100%;background:",
    );
    reveal_strlit(
        ";color:#fff;font-family:'Segoe UI',Arial,sans-serif;display:flex;flex-direction:column;align-items:center;justify-content:center;overflow:hidden;user-select:none}.logo{font-size:26px;font-weight:800;letter-spacing:2px}.sub{font-size:12px;opacity:.8;margin-top:8px}</style></head><body>",
    );
    reveal_strlit("<!DOCTYPE html>");
    reveal_strlit("background:");
    reveal_strlit(";");
    reveal_strlit("<body>");
    let page = splash_page(name, Some(background), Some(line), Some(image));
    let picture = image_tag(Some(image));
    let rest = picture + "<div class=\"logo\">"@ + escaped(name) + "</div><div class=\"sub\">"@
        + escaped(line) + "</div></body></html>"@;
    assert(page =~= a + background + b + rest);
    assert(a.take(15) =~= "<!DOCTYPE html>"@);
    assert(page.take(15) =~= a.take(15));
    assert(a.skip(a.len() - 11) =~= "background:"@);
    assert(b.take(1) =~= ";"@);
    let part = "background:"@ + background + ";"@;
    assert(page.skip(a.len() - 11).take(part.len() as int) =~= part);
    assert(part.is_prefix_of(page.skip(a.len() - 11)));
    assert(b.skip(b.len() - 6) =~= "<body>"@);
    let ending = "<body>"@ + picture + "<div class=\"logo\">"@ + escaped(name)
        + "</div><div class=\"sub\">"@ + escaped(line) + "</div></body></html>"@;
    assert(ending =~= "<body>"@ + rest);
    assert(page.skip(page.len() - ending.len()) =~= ending);
}

/// What is missing of the splash window is made good by its default: a gradient, a
/// line that says that the app loads, and no image.
pub proof fn law_splash_defaults(
    name: Seq<char>,
    background: Option<Seq<char>>,
    line: Option<Seq<char>>,
    image: Option<Seq<u8>>,
)
    ensures
        splash_page(name, None, line, image) == splash_page(
            name,
            Some("linear-gradient(135deg,#214771,#2f5d94)"@),
            line,
            image,
        ),
        splash_page(name, background, None, image) == splash_page(
            name,
            background,
            Some("Loading&hellip;"@),
            image,
        ),
        splash_page(name, background, line, None) == splash_page(
            name,
            background,
            line,
            Some(Seq::empty()),
        ),
{
}

/// An image comes inline as PNG data in base64, in one tag.
pub proof fn law_images_come_inline(data: Seq<char>)
    ensures
        ("<img src=\"data:image/png;base64,"@ + data + "\""@).is_prefix_of(inline_image(data)),
        inline_image(data).last() == '>',
{
    reveal_strlit("\"");
    reveal_strlit(
        "\" style=\"max-width:70%;max-height:55%;object-fit:contain;margin-bottom:12px\">",
    );
    let part = "<img src=\"data:image/png;base64,"@ + data + "\""@;
    assert(inline_image(data).take(part.len() as int) =~= part);
}

} // verus!
