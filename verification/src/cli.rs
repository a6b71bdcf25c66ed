//! The arguments of the host.

use crate::config::BrixConfig;
use crate::installer::{find_arg, lemma_place_of, place_of};
use crate::text::{decimal, law_decimal_reads_back, maybe, number_of, parse_u32, views};
use crate::urls::{parse_url, url_parsed, UrlView};
use vstd::prelude::*;
use vstd::string::*;

verus! {

/// True when an argument is the given word.
pub fn has_arg(args: &[String], word: &str) -> (r: bool)
    ensures
        r == views(args@).contains(word@),
{
    find_arg(args, word) < args.len()
}

/// The argument behind the first that is `word`.
pub open spec fn value_behind(args: Seq<Seq<char>>, word: Seq<char>) -> Option<Seq<char>> {
    if place_of(args, word) + 1 < args.len() {
        Some(args[place_of(args, word) + 1])
    } else {
        None
    }
}

/// The argument behind the first that is `word`.
pub fn arg_value(args: &[String], word: &str) -> (r: Option<String>)
    ensures
        maybe(r) == value_behind(views(args@), word@),
{
    let place = find_arg(args, word);
    if place < args.len() && place + 1 < args.len() {
        Some(args[place + 1].as_str().to_owned())
    } else {
        None
    }
}

/// A number in an argument.
pub open spec fn number_in(text: Option<Seq<char>>) -> Option<u32> {
    match text {
        Some(text) => match number_of(text, u32::MAX as int) {
            Some(n) => Some(n as u32),
            None => None,
        },
        None => None,
    }
}

fn arg_number(args: &[String], word: &str) -> (r: Option<u32>)
    ensures
        r == number_in(value_behind(views(args@), word@)),
{
    match arg_value(args, word) {
        Some(text) => parse_u32(text.as_str()),
        None => None,
    }
}

/// What a development run asks for: a page of a development server in place of
/// the bundle, and a title and a size.
#[derive(Debug)]
pub struct DevOptions {
    pub url: Option<String>,
    pub title: Option<String>,
    pub width: Option<u32>,
    pub height: Option<u32>,
}

/// What a development run asks for.
pub fn dev_options(args: &[String]) -> (r: DevOptions)
    ensures
        maybe(r.url) == value_behind(views(args@), "--dev"@),
        maybe(r.title) == value_behind(views(args@), "--title"@),
        r.width == number_in(value_behind(views(args@), "--width"@)),
        r.height == number_in(value_behind(views(args@), "--height"@)),
{
    DevOptions {
        url: arg_value(args, "--dev"),
        title: arg_value(args, "--title"),
        width: arg_number(args, "--width"),
        height: arg_number(args, "--height"),
    }
}

/// A value, or another where it is missing.
pub open spec fn or_kept<T>(value: Option<T>, kept: T) -> T {
    match value {
        Some(value) => value,
        None => kept,
    }
}

/// The port that an address names, if it is an address.
pub open spec fn port_of(url: Seq<char>) -> Option<u16> {
    match url_parsed(url) {
        Ok(parts) => parts.port,
        Err(_) => None,
    }
}

fn named_port(url: &str) -> (r: Option<u16>)
    ensures
        r == port_of(url@),
{
    match parse_url(url) {
        Ok(parts) => parts.port,
        Err(_) => None,
    }
}

/// The page that a development run opens, and the port of its server, which
/// makes local pages part of the app.
#[derive(Debug)]
pub struct DevPage {
    pub url: String,
    pub port: Option<u16>,
}

/// Applies a development run to the settings of the app. Without a page there
/// is none, and nothing changes.
pub fn apply_dev(config: &mut BrixConfig, dev: DevOptions) -> (page: Option<DevPage>)
    ensures
        final(config).version == old(config).version,
        final(config).entry == old(config).entry,
        final(config).backend == old(config).backend,
        final(config).tray == old(config).tray,
        final(config).minimize_to_tray == old(config).minimize_to_tray,
        final(config).devtools == old(config).devtools,
        final(config).splash == old(config).splash,
        final(config).webview2 == old(config).webview2,
        final(config).update == old(config).update,
        final(config).windows == old(config).windows,
        final(config).extension == old(config).extension,
        match maybe(dev.url) {
            Some(url) => {
                &&& page matches Some(page) && page.url@ == url && page.port == port_of(url)
                &&& final(config).name@ == or_kept(maybe(dev.title), old(config).name@)
                &&& final(config).window.width == or_kept(dev.width, old(config).window.width)
                &&& final(config).window.height == or_kept(dev.height, old(config).window.height)
            },
            None => page is None && final(config).name == old(config).name && final(config).window
                == old(config).window,
        },
{
    match dev.url {
        Some(url) => {
            let port = named_port(url.as_str());
            match dev.title {
                Some(title) => {
                    config.name = title;
                },
                None => {},
            }
            match dev.width {
                Some(width) => {
                    config.window.width = width;
                },
                None => {},
            }
            match dev.height {
                Some(height) => {
                    config.window.height = height;
                },
                None => {},
            }
            Some(DevPage { url, port })
        },
        None => None,
    }
}

/// The value of an argument is the one behind the first that is the word. There is
/// none where the word is missing or nothing stands behind it.
pub proof fn law_value_stands_behind_the_word(
    before: Seq<Seq<char>>,
    word: Seq<char>,
    value: Seq<char>,
    more: Seq<Seq<char>>,
)
    requires
        !before.contains(word),
    ensures
        value_behind(before.push(word) + (seq![value] + more), word) == Some(value),
        value_behind(before.push(word), word) is None,
        value_behind(before, word) is None,
{
    let behind = seq![value] + more;
    lemma_place_of(before, word, behind);
    lemma_place_of(before, word, Seq::empty());
    assert(before.push(word) + Seq::<Seq<char>>::empty() == before.push(word));
    assert((before.push(word) + behind)[before.len() as int + 1] == value);
}

/// A number of 32 bits in an argument counts as written, and anything larger or
/// missing is none.
pub proof fn law_numbers_in_arguments(n: int)
    requires
        n >= 0,
    ensures
        n <= 0xFFFF_FFFF ==> number_in(Some(decimal(n))) == Some(n as u32),
        n > 0xFFFF_FFFF ==> number_in(Some(decimal(n))) is None,
        number_in(None) is None,
{
    law_decimal_reads_back(n, n);
    if n <= 0xFFFF_FFFF {
        law_decimal_reads_back(n, 0xFFFF_FFFF);
    }
}

/// A value counts where it is given, and what was there before where it is not.
pub proof fn law_given_values_count<T>(value: T, kept: T)
    ensures
        or_kept(Some(value), kept) == value,
        or_kept(None, kept) == kept,
{
}

/// The port of a page is the one that its address names itself.
pub proof fn law_ports_are_named_by_the_address(url: Seq<char>, parts: UrlView)
    ensures
        url_parsed(url) == Ok::<UrlView, Seq<char>>(parts) ==> port_of(url) == parts.port,
        url_parsed(url) is Err ==> port_of(url) is None,
{
}

} // verus!
