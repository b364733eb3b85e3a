//! Shared `--proxy` / `--no-proxy` flags for subcommands that pull images.
use vstd::prelude::*;
use crate::text::{copy_maybe, lookup, maybe_text, pair_texts, trim};

verus! {

/// Values of the proxy flags.
#[derive(Debug, Clone, Default)]
pub struct ProxyOpts {
    /// Proxy URL used for the in-VM image pull.
    pub proxy: Option<String>,
    /// Comma-separated list of hosts/CIDRs that bypass the proxy during image
    /// pull.
    pub no_proxy: Option<String>,
}

/// The value of the first variable of `names` that is set to something other
/// than white space.
pub open spec fn first_nonempty(names: Seq<Seq<char>>, env: Seq<(Seq<char>, Seq<char>)>) -> Option<
    Seq<char>,
>
    decreases names.len(),
{
    if names.len() == 0 {
        None
    } else {
        match crate::text::first_value(env, names[0]) {
            Some(value) if crate::text::trimmed(value).len() > 0 => Some(value),
            _ => first_nonempty(names.drop_first(), env),
        }
    }
}

/// The variables that name a proxy, in order of preference.
pub open spec fn proxy_variables() -> Seq<Seq<char>> {
    seq![
        "HTTPS_PROXY"@,
        "https_proxy"@,
        "HTTP_PROXY"@,
        "http_proxy"@,
        "ALL_PROXY"@,
        "all_proxy"@,
    ]
}

/// The variables that name the bypass list, in order of preference.
pub open spec fn no_proxy_variables() -> Seq<Seq<char>> {
    seq!["NO_PROXY"@, "no_proxy"@]
}

/// The views of a list of string slices.
pub open spec fn slices(names: Seq<&str>) -> Seq<Seq<char>> {
    names.map_values(|n: &str| n@)
}

/// First environment variable in `names` that is set to a non-empty value.
pub fn first_nonempty_env(names: &[&str], env: &[(String, String)]) -> (r: Option<String>)
    ensures
        maybe_text(r) == first_nonempty(slices(names@), pair_texts(env@)),
{
    let ghost n = slices(names@);
    assert(n.skip(0) =~= n);
    let mut i: usize = 0;
    while i < names.len()
        invariant
            n == slices(names@),
            i <= names@.len(),
            first_nonempty(n, pair_texts(env@)) == first_nonempty(n.skip(i as int), pair_texts(env@)),
        decreases names@.len() - i,
    {
        assert(n.skip(i as int).drop_first() =~= n.skip(i + 1));
        assert(n.skip(i as int)[0] == n[i as int]);
        if let Some(value) = lookup(env, names[i]) {
            if trim(value).unicode_len() > 0 {
                return Some(value.to_owned());
            }
        }
        i += 1;
    }
    None
}

impl ProxyOpts {
    /// Proxy URL for the in-VM image pull: the explicit flag, else the standard
    /// proxy environment variables (`HTTPS_PROXY`/`HTTP_PROXY`/`ALL_PROXY`,
    /// upper- or lower-case), so it works out of the box on a proxy-only
    /// network the way curl/docker/go do.
    pub fn proxy(&self, env: &[(String, String)]) -> (r: Option<String>)
        ensures
            maybe_text(r) == match self.proxy {
                Some(flag) => Some(flag@),
                None => first_nonempty(proxy_variables(), pair_texts(env@)),
            },
    {
        if self.proxy.is_some() {
            return copy_maybe(&self.proxy);
        }
        let names = [
            "HTTPS_PROXY",
            "https_proxy",
            "HTTP_PROXY",
            "http_proxy",
            "ALL_PROXY",
            "all_proxy",
        ];
        assert(slices(names@) =~= proxy_variables());
        first_nonempty_env(&names, env)
    }

    /// Bypass list: the flag, else `NO_PROXY`/`no_proxy`.
    pub fn no_proxy(&self, env: &[(String, String)]) -> (r: Option<String>)
        ensures
            maybe_text(r) == match self.no_proxy {
                Some(flag) => Some(flag@),
                None => first_nonempty(no_proxy_variables(), pair_texts(env@)),
            },
    {
        if self.no_proxy.is_some() {
            return copy_maybe(&self.no_proxy);
        }
        let names = ["NO_PROXY", "no_proxy"];
        assert(slices(names@) =~= no_proxy_variables());
        first_nonempty_env(&names, env)
    }
}

/// A variable that is set, but to white space only, counts as unset.
pub proof fn law_blank_counts_as_unset(
    names: Seq<Seq<char>>,
    env: Seq<(Seq<char>, Seq<char>)>,
)
    requires
        names.len() > 0,
        crate::text::first_value(env, names[0]) matches Some(value) ==> crate::text::trimmed(
            value,
        ).len() == 0,
    ensures
        first_nonempty(names, env) == first_nonempty(names.drop_first(), env),
{
}

/// What is found is never blank.
pub proof fn law_found_value_is_not_blank(names: Seq<Seq<char>>, env: Seq<(Seq<char>, Seq<char>)>)
    ensures
        first_nonempty(names, env) matches Some(value) ==> crate::text::trimmed(value).len() > 0,
    decreases names.len(),
{
    if names.len() > 0 {
        law_found_value_is_not_blank(names.drop_first(), env);
    }
}

/// The first variable that is set to more than white space counts, whatever the
/// later ones are set to.
pub proof fn law_first_set_variable_counts(
    names: Seq<Seq<char>>,
    env: Seq<(Seq<char>, Seq<char>)>,
    i: int,
)
    requires
        0 <= i < names.len(),
        crate::text::first_value(env, names[i]) matches Some(value) && crate::text::trimmed(
            value,
        ).len() > 0,
        forall|j: int|
            0 <= j < i ==> (crate::text::first_value(env, #[trigger] names[j]) matches Some(value)
                ==> crate::text::trimmed(value).len() == 0),
    ensures
        first_nonempty(names, env) == crate::text::first_value(env, names[i]),
    decreases names.len(),
{
    if i > 0 {
        let rest = names.drop_first();
        assert(rest[i - 1] == names[i]);
        assert forall|j: int| 0 <= j < i - 1 implies (crate::text::first_value(
            env,
            #[trigger] rest[j],
        ) matches Some(value) ==> crate::text::trimmed(value).len() == 0) by {
            assert(rest[j] == names[j + 1]);
        }
        law_first_set_variable_counts(rest, env, i - 1);
        let first = names[0];
        assert(crate::text::first_value(env, first) matches Some(value)
            ==> crate::text::trimmed(value).len() == 0);
    }
}

/// A proxy for HTTPS is preferred to one for HTTP, and that to one for all; upper
/// case to lower case.
pub proof fn law_order_of_the_variables()
    ensures
        proxy_variables().len() == 6 && no_proxy_variables().len() == 2,
        proxy_variables()[0] == "HTTPS_PROXY"@ && proxy_variables()[1] == "https_proxy"@,
        proxy_variables()[2] == "HTTP_PROXY"@ && proxy_variables()[3] == "http_proxy"@,
        proxy_variables()[4] == "ALL_PROXY"@ && proxy_variables()[5] == "all_proxy"@,
        no_proxy_variables()[0] == "NO_PROXY"@ && no_proxy_variables()[1] == "no_proxy"@,
{
}

} // verus!
