//! Choosing a browser rendering backend: whether WebGPU is worth trying for
//! a user agent, and in which order backends are tried.

use vstd::prelude::*;
use vstd::string::*;

use crate::web::canvas::{BrowserBackendKind, BrowserBackendPreference};

verus! {

/// What `str::to_lowercase` gives for a text: its Unicode lowercase mapping.
pub uninterp spec fn lowercase_text(s: Seq<char>) -> Seq<char>;

/// `str::to_lowercase`: the text with every character mapped to its Unicode
/// lowercase form. The contract only names the result, which depends on the
/// text alone.
#[verifier::external_body]
fn to_lowercase(s: &str) -> (r: String)
    ensures
        r@ == lowercase_text(s@),
{
    s.to_lowercase()
}

/// Whether `needle` occurs in `hay` starting at character `i`.
pub open spec fn occurs_at(hay: Seq<char>, needle: Seq<char>, i: int) -> bool {
    0 <= i && i + needle.len() <= hay.len() && hay.subrange(i, i + needle.len()) == needle
}

/// Whether `needle` occurs anywhere in `hay`.
pub open spec fn text_has(hay: Seq<char>, needle: Seq<char>) -> bool {
    exists|i: int| occurs_at(hay, needle, i)
}

/// Whether `needle` occurs in `hay`.
pub fn text_contains(hay: &str, needle: &str) -> (r: bool)
    ensures
        r == text_has(hay@, needle@),
{
    let n = hay.unicode_len();
    let m = needle.unicode_len();
    if m > n {
        assert forall|i: int| !occurs_at(hay@, needle@, i) by {}
        return false;
    }
    let mut i: usize = 0;
    while i <= n - m
        invariant
            n == hay@.len(),
            m == needle@.len(),
            m <= n,
            i <= n - m + 1,
            forall|j: int| 0 <= j < i ==> !occurs_at(hay@, needle@, j),
        decreases n - m + 1 - i,
    {
        let mut k: usize = 0;
        let mut same = true;
        while k < m && same
            invariant
                n == hay@.len(),
                m == needle@.len(),
                i + m <= n,
                k <= m,
                same ==> forall|t: int| 0 <= t < k ==> hay@[i + t] == needle@[t],
                !same ==> hay@[i + k] != needle@[k as int] && k < m,
            decreases m - k + if same { 1int } else { 0 },
        {
            if hay.get_char(i + k) != needle.get_char(k) {
                same = false;
            } else {
                k += 1;
            }
        }
        if same {
            assert(hay@.subrange(i as int, i + m) =~= needle@);
            assert(occurs_at(hay@, needle@, i as int));
            return true;
        }
        assert(!occurs_at(hay@, needle@, i as int)) by {
            if occurs_at(hay@, needle@, i as int) {
                assert(hay@.subrange(i as int, i + m)[k as int] == hay@[i + k]);
            }
        }
        i += 1;
    }
    assert forall|j: int| !occurs_at(hay@, needle@, j) by {
        if 0 <= j && j < i {
        }
    }
    false
}

/// Whether WebGPU is worth trying for a lowercase user agent: never on
/// Firefox, never on Safari proper (a user agent that names Safari but not
/// Chrome, Chromium or Edge), and only where the navigator exposes `gpu`.
pub open spec fn webgpu_allowed_spec(ua: Seq<char>, navigator_has_gpu: bool) -> bool {
    let safari = text_has(ua, "safari"@) && !text_has(ua, "chrome"@) && !text_has(ua, "chromium"@)
        && !text_has(ua, "edg/"@);
    !text_has(ua, "firefox"@) && !safari && navigator_has_gpu
}

/// WebGPU is never tried without a `gpu` property, nor on Firefox, nor on a
/// user agent that names Safari but none of Chrome, Chromium or Edge; a
/// non-Firefox user agent that names Chrome and has `gpu` tries it.
pub proof fn lemma_webgpu_choice(ua: Seq<char>, navigator_has_gpu: bool)
    ensures
        !navigator_has_gpu ==> !webgpu_allowed_spec(ua, navigator_has_gpu),
        text_has(ua, "firefox"@) ==> !webgpu_allowed_spec(ua, navigator_has_gpu),
        text_has(ua, "safari"@) && !text_has(ua, "chrome"@) && !text_has(ua, "chromium"@) && !text_has(
            ua,
            "edg/"@,
        ) ==> !webgpu_allowed_spec(ua, navigator_has_gpu),
        !text_has(ua, "firefox"@) && text_has(ua, "chrome"@) && navigator_has_gpu ==> webgpu_allowed_spec(
            ua,
            navigator_has_gpu,
        ),
{
}

/// Decides from an already lowercased user agent, and whether the
/// navigator has a `gpu` property, whether WebGPU should be tried.
pub fn webgpu_allowed(user_agent_lower: &str, navigator_has_gpu: bool) -> (r: bool)
    ensures
        r == webgpu_allowed_spec(user_agent_lower@, navigator_has_gpu),
{
    if text_contains(user_agent_lower, "firefox") {
        return false;
    }
    let is_safari = text_contains(user_agent_lower, "safari") && !text_contains(user_agent_lower, "chrome")
        && !text_contains(user_agent_lower, "chromium") && !text_contains(user_agent_lower, "edg/");
    if is_safari {
        return false;
    }
    navigator_has_gpu
}

/// Decides from a user agent, in any case, and whether the navigator has a
/// `gpu` property, whether WebGPU should be tried.
pub fn should_try_webgpu(user_agent: &str, navigator_has_gpu: bool) -> (r: bool)
    ensures
        r == webgpu_allowed_spec(lowercase_text(user_agent@), navigator_has_gpu),
{
    let lower = to_lowercase(user_agent);
    webgpu_allowed(lower.as_str(), navigator_has_gpu)
}

/// The backend tried first for a preference, and the one tried if it
/// fails: a forced backend has no fallback; `Auto` tries WebGPU, then
/// WebGL, where WebGPU is worth trying, and WebGL alone otherwise.
pub fn backend_attempts(preference: BrowserBackendPreference, try_webgpu: bool) -> (r: (
    BrowserBackendKind,
    Option<BrowserBackendKind>,
))
    ensures
        r == match preference {
            BrowserBackendPreference::WebGpu => (BrowserBackendKind::WebGpu, None),
            BrowserBackendPreference::WebGl => (BrowserBackendKind::WebGl, None),
            BrowserBackendPreference::Auto => if try_webgpu {
                (BrowserBackendKind::WebGpu, Some(BrowserBackendKind::WebGl))
            } else {
                (BrowserBackendKind::WebGl, None)
            },
        },
{
    match preference {
        BrowserBackendPreference::WebGpu => (BrowserBackendKind::WebGpu, None),
        BrowserBackendPreference::WebGl => (BrowserBackendKind::WebGl, None),
        BrowserBackendPreference::Auto => if try_webgpu {
            (BrowserBackendKind::WebGpu, Some(BrowserBackendKind::WebGl))
        } else {
            (BrowserBackendKind::WebGl, None)
        },
    }
}

} // verus!
