//! Verified pieces of the skills registry client: query encoding and the
//! request addresses. The network calls themselves live outside the
//! library and hand back plain text.

use vstd::prelude::*;

verus! {

use crate::numfmt::dec_of;
use crate::numfmt::u64_to_string;
use crate::text::push_char;
use vstd::string::StrSliceExecFns;
use vstd::string::StringExecFns;

/// A skill returned by the registry's search interface.
pub struct RegistrySkill {
    /// Full identifier, such as `owner/repo/skill-name`.
    pub id: String,
    /// Short skill name.
    pub skill_id: String,
    /// Display name.
    pub name: String,
    /// Number of installs.
    pub installs: u64,
    /// Source repository, such as `owner/repo`.
    pub source: String,
}

/// A page of search results.
pub struct SearchResponse {
    /// Skills in the current page.
    pub skills: Vec<RegistrySkill>,
    /// Total number of matches reported.
    pub count: u64,
}

/// The escape of one query character: the reserved characters become
/// percent escapes, everything else stands for itself.
pub open spec fn urlenc_char(c: char) -> Seq<char> {
    if c == ' ' {
        "%20"@
    } else if c == '&' {
        "%26"@
    } else if c == '=' {
        "%3D"@
    } else if c == '+' {
        "%2B"@
    } else if c == '#' {
        "%23"@
    } else if c == '%' {
        "%25"@
    } else {
        seq![c]
    }
}

/// A whole query value, escaped.
pub open spec fn spec_urlencoded(s: Seq<char>) -> Seq<char>
    decreases s.len(),
{
    if s.len() == 0 {
        Seq::empty()
    } else {
        spec_urlencoded(s.drop_last()) + urlenc_char(s.last())
    }
}

/// Encode a subset of reserved characters for a query parameter value.
pub fn urlencoded(s: &str) -> (r: String)
    ensures
        r@ == spec_urlencoded(s@),
{
    proof {
        reveal_strlit("%20");
        reveal_strlit("%26");
        reveal_strlit("%3D");
        reveal_strlit("%2B");
        reveal_strlit("%23");
        reveal_strlit("%25");
    }
    let n = s.unicode_len();
    let mut out = String::new();
    let mut i: usize = 0;
    proof {
        assert(s@.subrange(0, 0) =~= Seq::<char>::empty());
        assert(out@ =~= spec_urlencoded(s@.subrange(0, 0)));
    }
    while i < n
        invariant
            i <= n,
            n == s@.len(),
            out@ == spec_urlencoded(s@.subrange(0, i as int)),
        decreases n - i,
    {
        proof {
            reveal_strlit("%20");
            reveal_strlit("%26");
            reveal_strlit("%3D");
            reveal_strlit("%2B");
            reveal_strlit("%23");
            reveal_strlit("%25");
            let pre = s@.subrange(0, i as int);
            let cur = s@.subrange(0, i as int + 1);
            assert(cur.drop_last() =~= pre);
            assert(cur.last() == s@[i as int]);
        }
        let c = s.get_char(i);
        if c == ' ' {
            out.append("%20");
        } else if c == '&' {
            out.append("%26");
        } else if c == '=' {
            out.append("%3D");
        } else if c == '+' {
            out.append("%2B");
        } else if c == '#' {
            out.append("%23");
        } else if c == '%' {
            out.append("%25");
        } else {
            push_char(&mut out, c);
        }
        i = i + 1;
    }
    proof {
        assert(s@.subrange(0, n as int) =~= s@);
    }
    out
}

/// The search request address for a query and page size.
pub fn search_url(query: &str, limit: u32) -> (r: String)
    ensures
        r@ == "https://skills.sh/api/search?q="@ + spec_urlencoded(query@) + "&limit="@ + dec_of(
            limit as int,
        ),
{
    let mut r = "https://skills.sh/api/search?q=".to_owned();
    r.append(urlencoded(query).as_str());
    r.append("&limit=");
    r.append(u64_to_string(limit as u64).as_str());
    r
}

/// The address of a skill document in a multi-skill repository.
pub fn skill_md_url_multi(source: &str, skill_id: &str) -> (r: String)
    ensures
        r@ == "https://raw.githubusercontent.com/"@ + source@ + "/main/skills/"@ + skill_id@
            + "/SKILL.md"@,
{
    let mut r = "https://raw.githubusercontent.com/".to_owned();
    r.append(source);
    r.append("/main/skills/");
    r.append(skill_id);
    r.append("/SKILL.md");
    r
}

/// The address of a skill document at a single-skill repository root.
pub fn skill_md_url_single(source: &str) -> (r: String)
    ensures
        r@ == "https://raw.githubusercontent.com/"@ + source@ + "/main/SKILL.md"@,
{
    let mut r = "https://raw.githubusercontent.com/".to_owned();
    r.append(source);
    r.append("/main/SKILL.md");
    r
}

} // verus!
