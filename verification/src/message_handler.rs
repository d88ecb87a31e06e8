//! Chat messages: commands, image requests such as `cat.jpg`, and how each
//! found image is delivered.

use vstd::prelude::*;
use crate::imgur_handler::{is_imgur_url, spec_is_imgur_url};
use crate::pattern::{find_matches, group, group_of, matches_or_none, regex_captures, url_is_valid, url_parses};
use crate::text::{chars_of, seq_starts_with, starts_with, str_eq};
use crate::unicode::{str_lowercase, to_lowercase};

verus! {

/// A message naming an image file: the name, a dot and `jpg`, `png` or `gif`
/// in any case.
pub const IMAGE_REQUEST_PATTERN: &'static str = r"^(.+?)\.((?i)jpg|png|gif)$";

/// The reply to `/start`.
pub const WELCOME_TEXT: &'static str = "Welcome! Send me a message like \"cat.jpg\" or \"dog.gif\" to search for images.\nYou can also use me in any chat by typing @botname followed by your search term!\nSee https://github.com/akira02/rust-tg.jpg for more information.";

/// What a text message asks for.
#[derive(Debug, PartialEq, Eq)]
pub enum MessageAction {
    /// A command (the text starts with `/`).
    Command,
    /// An image search for the name before the extension.
    ImageSearch { query: String, is_gif: bool },
    /// Anything else, which the bot leaves alone.
    Ignore,
}

/// The request made by the matches of the image-request pattern: an image
/// search for group 1 of the first match, for GIFs when group 2 is `gif` in
/// any case; nothing without a match.
pub open spec fn spec_request_from_matches(ms: Seq<Seq<Option<Seq<char>>>>, r: MessageAction) -> bool {
    if ms.len() > 0 && group_of(ms[0], 1) is Some && group_of(ms[0], 2) is Some {
        r matches MessageAction::ImageSearch { query, is_gif } && query@ == group_of(ms[0], 1)->0
            && is_gif == (str_lowercase(group_of(ms[0], 2)->0) == "gif"@)
    } else {
        r == MessageAction::Ignore
    }
}

/// What a text message asks for: a command when it starts with `/`; an
/// image search when the whole text is a name followed by an image
/// extension; nothing otherwise.
pub open spec fn spec_classify(text: Seq<char>, r: MessageAction) -> bool {
    if seq_starts_with(text, "/"@) {
        r == MessageAction::Command
    } else {
        spec_request_from_matches(matches_or_none(regex_captures(IMAGE_REQUEST_PATTERN@, text)), r)
    }
}

/// The request made by the matches of the image-request pattern. (For this
/// pattern both groups always take part in a match; a match without them
/// would be ignored.)
pub fn request_from_matches(ms: &Vec<Vec<Option<String>>>) -> (r: MessageAction)
    ensures
        spec_request_from_matches(ms.deep_view(), r),
{
    if ms.len() == 0 {
        return MessageAction::Ignore;
    }
    let name = group(&ms[0], 1);
    let ext = group(&ms[0], 2);
    match (name, ext) {
        (Some(query), Some(ext)) => {
            let lower = to_lowercase(ext.as_str());
            let is_gif = str_eq(lower.as_str(), "gif");
            MessageAction::ImageSearch { query, is_gif }
        },
        _ => MessageAction::Ignore,
    }
}

/// Classify a text message.
pub fn classify_message(text: &str) -> (r: MessageAction)
    ensures
        spec_classify(text@, r),
{
    let tv = chars_of(text);
    let slash = chars_of("/");
    if starts_with(tv.as_slice(), slash.as_slice()) {
        return MessageAction::Command;
    }
    let ms = find_matches(IMAGE_REQUEST_PATTERN, text);
    request_from_matches(&ms)
}

/// The reply to a command: the welcome text for `/start`, nothing otherwise.
pub fn command_reply(text: &str) -> (r: Option<String>)
    ensures
        match r {
            Some(reply) => text@ == "/start"@ && reply@ == WELCOME_TEXT@,
            None => text@ != "/start"@,
        },
{
    if str_eq(text, "/start") {
        Some(String::from_str(WELCOME_TEXT))
    } else {
        None
    }
}

/// How a found image is sent.
#[derive(Clone, Copy, Debug, PartialEq, Eq, Structural)]
pub enum Delivery {
    /// Download it first and upload the bytes (imgur links).
    DownloadImgur,
    /// Let Telegram fetch it from its URL.
    SendUrl,
    /// Skip it: the URL does not parse.
    Skip,
}

/// How the image at `url` is sent.
pub open spec fn spec_delivery(url: Seq<char>) -> Delivery {
    if spec_is_imgur_url(url) {
        Delivery::DownloadImgur
    } else if url_parses(url) {
        Delivery::SendUrl
    } else {
        Delivery::Skip
    }
}

/// How the image at `url` is sent.
pub fn delivery_method(url: &str) -> (r: Delivery)
    ensures
        r == spec_delivery(url@),
{
    if is_imgur_url(url) {
        Delivery::DownloadImgur
    } else if url_is_valid(url) {
        Delivery::SendUrl
    } else {
        Delivery::Skip
    }
}


/// The next image to try, at or after position `from`: the first whose URL
/// is not skipped, with how it is sent.
pub open spec fn spec_next_attempt(urls: Seq<Seq<char>>, from: int) -> Option<(int, Delivery)>
    decreases urls.len() - from,
{
    if from < 0 || from >= urls.len() {
        None
    } else if spec_delivery(urls[from]) != Delivery::Skip {
        Some((from, spec_delivery(urls[from])))
    } else {
        spec_next_attempt(urls, from + 1)
    }
}

/// The next image to try after the attempts before `from` failed.
pub fn next_attempt(urls: &Vec<String>, from: usize) -> (r: Option<(usize, Delivery)>)
    ensures
        match r {
            Some((i, d)) => spec_next_attempt(crate::image_search::string_views(urls@), from as int)
                == Some((i as int, d)),
            None => spec_next_attempt(crate::image_search::string_views(urls@), from as int) is None,
        },
{
    let ghost all = crate::image_search::string_views(urls@);
    let mut i = from;
    while i < urls.len()
        invariant
            all == crate::image_search::string_views(urls@),
            from <= i,
            spec_next_attempt(all, from as int) == spec_next_attempt(all, i as int),
        decreases urls.len() - i,
    {
        let d = delivery_method(urls[i].as_str());
        assert(all[i as int] == urls@[i as int]@);
        if d != Delivery::Skip {
            return Some((i, d));
        }
        i += 1;
    }
    None
}
} // verus!
