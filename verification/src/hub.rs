//! Where models are kept and how their hub is reached.

use crate::text;
use vstd::prelude::*;
use vstd::string::*;

verus! {

/// The directory that models are kept in: the one configured, else one of its own in
/// the working directory.
pub fn get_cache_dir(configured: Option<String>) -> (dir: String)
    ensures
        dir@ == (match configured {
            Some(dir) => dir@,
            None => ".fastembed_cache"@,
        }),
{
    match configured {
        Some(dir) => dir,
        None => ".fastembed_cache".to_string(),
    }
}

/// The directory that the hub keeps models in: the one configured, else the default.
pub fn hf_cache_dir<P>(configured: Option<P>, default_cache_dir: P) -> (dir: P)
    ensures
        dir == (match configured {
            Some(dir) => dir,
            None => default_cache_dir,
        }),
{
    match configured {
        Some(dir) => dir,
        None => default_cache_dir,
    }
}

/// How the hub is reached.
#[derive(Debug)]
pub struct HubSettings<P> {
    pub cache_dir: P,
    pub endpoint: String,
    pub token: Option<String>,
    pub progress: bool,
}

/// The token that a text holds, unless it is blank.
pub open spec fn token_in(text: Seq<char>) -> Option<Seq<char>> {
    if text::trimmed(text).len() > 0 {
        Some(text::trimmed(text))
    } else {
        None
    }
}

/// The token of a setting, unless it is missing or blank.
pub open spec fn configured_token(setting: Option<String>) -> Option<Seq<char>> {
    match setting {
        Some(text) => token_in(text@),
        None => None,
    }
}

/// Reads the token of a setting, unless it is missing or blank.
pub fn read_token(setting: &Option<String>) -> (token: Option<String>)
    ensures
        match token {
            Some(token) => configured_token(*setting) == Some(token@),
            None => configured_token(*setting) is None,
        },
{
    match setting {
        Some(text) => {
            let token = text::trim(text.as_str());
            proof {
                lemma_no_bytes(token@);
            }
            if token.as_str().as_bytes().len() > 0 {
                Some(token)
            } else {
                None
            }
        },
        None => None,
    }
}

/// A text has bytes if it has characters.
proof fn lemma_no_bytes(text: Seq<char>)
    ensures
        (vstd::utf8::encode_utf8(text).len() > 0) == (text.len() > 0),
{
    reveal_with_fuel(vstd::utf8::encode_utf8, 2);
}

/// Settles how the hub is reached. `home` and `default_cache_dir` say where models are
/// kept, `endpoint` where the hub is, `token` what to authenticate with; where that is
/// missing or blank, `stored_token` is used.
pub fn hub_settings<P>(
    home: Option<P>,
    default_cache_dir: P,
    endpoint: Option<String>,
    token: Option<String>,
    stored_token: Option<String>,
    show_download_progress: bool,
) -> (settings: HubSettings<P>)
    ensures
        settings.cache_dir == (match home {
            Some(dir) => dir,
            None => default_cache_dir,
        }),
        settings.endpoint@ == (match endpoint {
            Some(endpoint) => endpoint@,
            None => "https://huggingface.co"@,
        }),
        configured_token(token) is Some ==> (settings.token matches Some(found)
            && configured_token(token) == Some(found@)),
        configured_token(token) is None ==> settings.token == stored_token,
        settings.progress == show_download_progress,
{
    let endpoint = match endpoint {
        Some(endpoint) => endpoint,
        None => "https://huggingface.co".to_string(),
    };
    let token = match read_token(&token) {
        Some(token) => Some(token),
        None => stored_token,
    };
    HubSettings {
        cache_dir: hf_cache_dir(home, default_cache_dir),
        endpoint,
        token,
        progress: show_download_progress,
    }
}

/// A token that comes from a setting is not empty, and has no white space at either
/// end.
pub proof fn tokens_are_trimmed(setting: Seq<char>)
    ensures
        token_in(setting) matches Some(token) ==> {
            &&& token.len() > 0
            &&& !text::is_white_space(token[0])
            &&& !text::is_white_space(token.last())
        },
{
    lemma_trimmed_start(setting);
    lemma_trimmed_end(text::trimmed_start(setting));
}

/// A text without the white space at its start does not start with any.
proof fn lemma_trimmed_start(text: Seq<char>)
    ensures
        text::trimmed_start(text).len() > 0 ==> !text::is_white_space(
            text::trimmed_start(text)[0],
        ),
    decreases text.len(),
{
    if text.len() > 0 && text::is_white_space(text[0]) {
        lemma_trimmed_start(text.drop_first());
    }
}

/// A text without the white space at its end does not end with any, and starts as
/// before.
proof fn lemma_trimmed_end(text: Seq<char>)
    ensures
        text::trimmed_end(text).len() > 0 ==> {
            &&& !text::is_white_space(text::trimmed_end(text).last())
            &&& text::trimmed_end(text)[0] == text[0]
        },
    decreases text.len(),
{
    if text.len() > 0 && text::is_white_space(text.last()) {
        lemma_trimmed_end(text.drop_last());
    }
}

/// Models are kept in the directory that is configured, and in `.fastembed_cache` where none
/// is.
pub proof fn models_are_kept_where_configured(configured: Option<String>, dir: String)
    requires
        call_ensures(get_cache_dir, (configured,), dir),
    ensures
        configured matches Some(chosen) ==> dir@ == chosen@,
        configured is None ==> dir@ == ".fastembed_cache"@,
{
}

/// The hub keeps models in the directory that is configured, and in the default one where
/// none is.
pub proof fn hub_keeps_models_where_configured<P>(configured: Option<P>, default: P, dir: P)
    requires
        call_ensures(hf_cache_dir::<P>, (configured, default), dir),
    ensures
        configured matches Some(chosen) ==> dir == chosen,
        configured is None ==> dir == default,
{
}

/// The hub is reached at the endpoint that is set, and at its public address where none is.
/// It is given the token of the setting with the white space around it left out; where the
/// setting is missing or nothing but white space, it is given the stored token, if any.
pub proof fn hub_is_reached_as_set<P>(
    home: Option<P>,
    default: P,
    endpoint: Option<String>,
    token: Option<String>,
    stored: Option<String>,
    progress: bool,
    settings: HubSettings<P>,
)
    requires
        call_ensures(
            hub_settings::<P>,
            (home, default, endpoint, token, stored, progress),
            settings,
        ),
    ensures
        home matches Some(dir) ==> settings.cache_dir == dir,
        home is None ==> settings.cache_dir == default,
        endpoint matches Some(address) ==> settings.endpoint@ == address@,
        endpoint is None ==> settings.endpoint@ == "https://huggingface.co"@,
        settings.progress == progress,
        token is None ==> settings.token == stored,
        token matches Some(text) ==> {
            let blank = forall|i: int|
                0 <= i < text@.len() ==> text::is_white_space(#[trigger] text@[i]);
            &&& blank ==> settings.token == stored
            &&& !blank ==> (settings.token matches Some(found) && exists|start: int, end: int|
                #![trigger text@.subrange(start, end)]
                {
                    &&& 0 <= start < end <= text@.len()
                    &&& found@ == text@.subrange(start, end)
                    &&& !text::is_white_space(text@[start])
                    &&& !text::is_white_space(text@[end - 1])
                    &&& forall|i: int|
                        0 <= i < start || end <= i < text@.len() ==> text::is_white_space(
                            #[trigger] text@[i],
                        )
                })
        },
{
    if let Some(text) = token {
        let (start, end) = text::trimming_leaves_out_white_space(text@);
        if start < end {
            assert(text::trimmed(text@) == text@.subrange(start, end));
            assert(text::is_white_space(text@[start]) == false);
        } else {
            assert(text::trimmed(text@).len() == 0);
        }
    }
}

}
