//! What holds of ingress rules: which requests they are for, which of them
//! wins, and what they answer.

use vstd::prelude::*;
use crate::config;
use crate::config::IngressRule;
use crate::ingress;
use crate::text;
use crate::text_laws;

verus! {

/// A rule without a host is for every request. A rule with a host is for a
/// request where, both in lower case, the requested host is that of the rule,
/// or, where the rule starts with `*.`, ends with what stands behind the star;
/// and where the path of the rule stands at the very start of the requested
/// path, character by character.
pub proof fn law_what_a_rule_is_for(rule: IngressRule, host: Seq<char>, path: Seq<char>)
    ensures
        ({
            let own = text::lowercase(rule.hostname@);
            let asked = text::lowercase(config::without_port(host));
            let p = rule.path@;
            let host_ok = if own.len() >= 2 && own[0] == '*' && own[1] == '.' {
                own.len() - 1 <= asked.len() && forall|i: int|
                    1 <= i < own.len() ==> asked[asked.len() - own.len() + i] == #[trigger] own[i]
            } else {
                asked == own
            };
            let path_ok = p.len() <= path.len() && forall|i: int|
                0 <= i < p.len() ==> path[i] == #[trigger] p[i];
            rule.applies(host, path) <==> rule.hostname@.len() == 0 || (host_ok && path_ok)
        }),
{
    let own = text::lowercase(rule.hostname@);
    let asked = text::lowercase(config::without_port(host));
    text_laws::law_starts(path, rule.path@);
    text_laws::law_starts(own, seq!['*', '.']);
    let star = seq!['*', '.'];
    assert(star[0] == '*' && star[1] == '.');
    let behind = own.skip(1);
    text_laws::law_ends(asked, behind);
    if own.len() >= 2 && own[0] == '*' && own[1] == '.' {
        if text::ends(asked, behind) {
            assert forall|i: int| 1 <= i < own.len() implies asked[asked.len() - own.len() + i]
                == #[trigger] own[i] by {
                assert(behind[i - 1] == own[i]);
            }
        }
        if own.len() - 1 <= asked.len() && forall|i: int|
            1 <= i < own.len() ==> asked[asked.len() - own.len() + i] == #[trigger] own[i] {
            assert forall|i: int| 0 <= i < behind.len() implies asked[asked.len() - behind.len()
                + i] == #[trigger] behind[i] by {
                assert(behind[i] == own[i + 1]);
            }
        }
    }
}

/// A host without its port is the host up to its first colon.
pub proof fn law_without_port(host: Seq<char>)
    ensures
        ({
            let h = config::without_port(host);
            &&& h.len() <= host.len()
            &&& forall|i: int| 0 <= i < h.len() ==> #[trigger] h[i] == host[i] && h[i] != ':'
            &&& h.len() < host.len() ==> host[h.len() as int] == ':'
        }),
{
    host.index_of_first_ensures(':');
    let h = config::without_port(host);
    assert forall|i: int| 0 <= i < h.len() implies #[trigger] h[i] == host[i] && h[i] != ':' by {
        if host[i] == ':' {
            assert(host.contains(':'));
        }
    }
}

/// The first rule for a request is for it, and no rule before it is.
pub proof fn law_first_match(rules: Seq<IngressRule>, host: Seq<char>, path: Seq<char>, i: int)
    ensures
        ingress::first_match(rules, host, path, i) <==> 0 <= i < rules.len() && rules[i].applies(
            host,
            path,
        ) && !exists|j: int| 0 <= j < i && (#[trigger] rules[j]).applies(host, path),
{
}

/// A rule that is put in front of others takes the requests that it is for, and
/// leaves to them all that it is not for.
pub proof fn law_rule_in_front(
    rule: IngressRule,
    rules: Seq<IngressRule>,
    host: Seq<char>,
    path: Seq<char>,
    i: int,
)
    requires
        0 <= i,
    ensures
        rule.applies(host, path) ==> ingress::first_match(seq![rule] + rules, host, path, 0),
        !rule.applies(host, path) ==> (ingress::first_match(rules, host, path, i)
            <==> ingress::first_match(seq![rule] + rules, host, path, i + 1)),
{
    let all = seq![rule] + rules;
    assert(all[0] == rule);
    if !rule.applies(host, path) && i < rules.len() {
        assert(all[i + 1] == rules[i]);
        if ingress::first_match(rules, host, path, i) {
            assert forall|j: int| 0 <= j < i + 1 implies !(#[trigger] all[j]).applies(host, path) by {
                if j > 0 {
                    assert(all[j] == rules[j - 1]);
                }
            }
        }
        if ingress::first_match(all, host, path, i + 1) {
            assert forall|j: int| 0 <= j < i implies !(#[trigger] rules[j]).applies(host, path) by {
                assert(all[j + 1] == rules[j]);
            }
        }
    }
}

/// Rules can be used where there are any and the last is for every host.
pub proof fn law_valid_rules(rules: Seq<IngressRule>, last: IngressRule)
    ensures
        !ingress::valid_rules(Seq::empty()),
        ingress::valid_rules(rules.push(last)) <==> last.hostname@.len() == 0,
{
    assert(rules.push(last).last() == last);
}

/// The number of digits grows with each digit behind it: ten times what it was,
/// and the digit.
pub proof fn law_digits(s: Seq<char>, d: nat)
    requires
        d < 10,
    ensures
        config::digits_value(Seq::empty()) == 0,
        config::digits_value(s.push((48 + d) as char)) == 10 * config::digits_value(s) + d,
{
    let t = s.push((48 + d) as char);
    assert(t.drop_last() =~= s);
    assert(t.last() as int == 48 + d);
}

/// Decimal digits are read as the number that they were written of.
proof fn lemma_decimal_value(n: nat)
    ensures
        config::digits_value(text::decimal(n)) == n,
        text::decimal(n).len() > 0,
        forall|i: int| 0 <= i < text::decimal(n).len() ==> '0' <= #[trigger] text::decimal(n)[i] <= '9',
    decreases n,
{
    if n < 10 {
        law_digits(Seq::empty(), n);
        assert(Seq::<char>::empty().push((48 + n) as char) =~= text::decimal(n));
    } else {
        let m = n / 10;
        let d = n % 10;
        lemma_decimal_value(m);
        law_digits(text::decimal(m), d);
        assert(text::decimal(n) == text::decimal(m).push((48 + d) as char));
    }
}

/// A service `http_status:` and a number answers with that number as its status,
/// where it has sixteen bits, also with a plus sign in front of it.
pub proof fn law_status_service(rule: IngressRule, n: nat)
    requires
        rule.service@ == "http_status:"@ + text::decimal(n) || rule.service@ == "http_status:+"@
            + text::decimal(n),
    ensures
        n <= 65535 ==> rule.spec_status_code() == Some(n as u16),
        n > 65535 ==> rule.spec_status_code() is None,
{
    reveal_strlit("http_status:");
    reveal_strlit("http_status:+");
    lemma_decimal_value(n);
    let digits = text::decimal(n);
    let s = rule.service@;
    assert(s.take(12) =~= "http_status:"@);
    let rest = s.skip(12);
    assert('0' <= digits[0] <= '9');
    if s == "http_status:"@ + digits {
        assert(rest =~= digits);
    } else {
        assert(rest =~= seq!['+'] + digits);
        assert(rest.skip(1) =~= digits);
    }
}

/// A service `http_status:` and any decimal digits answers with the number that
/// these stand for, where it has sixteen bits, also with a plus sign in front of
/// them.
pub proof fn law_status_digits(rule: IngressRule, digits: Seq<char>)
    requires
        rule.service@ == "http_status:"@ + digits || rule.service@ == "http_status:+"@ + digits,
        digits.len() > 0,
        forall|i: int| 0 <= i < digits.len() ==> '0' <= #[trigger] digits[i] <= '9',
    ensures
        config::digits_value(digits) <= 65535 ==> rule.spec_status_code() == Some(
            config::digits_value(digits) as u16,
        ),
        config::digits_value(digits) > 65535 ==> rule.spec_status_code() is None,
{
    reveal_strlit("http_status:");
    reveal_strlit("http_status:+");
    let s = rule.service@;
    assert(s.take(12) =~= "http_status:"@);
    assert('0' <= digits[0] <= '9');
    let rest = s.skip(12);
    if s == "http_status:"@ + digits {
        assert(rest =~= digits);
    } else {
        assert(rest =~= seq!['+'] + digits);
        assert(rest.skip(1) =~= digits);
    }
}

/// A service that does not start with `http_status:`, or in which something else
/// than decimal digits follows, has no status of its own. A single plus sign may
/// stand in front of the digits.
pub proof fn law_other_services(rule: IngressRule, i: int)
    requires
        ({
            let s = rule.service@;
            ||| s.len() < 12
            ||| 0 <= i < 12 && s[i] != "http_status:"@[i]
            ||| s.len() == 12
            ||| s.len() == 13 && s[12] == '+'
            ||| 12 < i < s.len() && !('0' <= s[i] <= '9')
            ||| i == 12 && i < s.len() && !('0' <= s[i] <= '9') && s[i] != '+'
        }),
    ensures
        rule.spec_status_code() is None,
{
    let s = rule.service@;
    let prefix = "http_status:"@;
    reveal_strlit("http_status:");
    if text::starts(s, prefix) {
        text_laws::law_starts(s, prefix);
        let rest = s.skip(12);
        let digits = if rest.len() > 0 && rest[0] == '+' {
            rest.skip(1)
        } else {
            rest
        };
        assert(!(0 <= i < 12 && s[i] != prefix[i]));
        if config::all_digits(digits) {
            let k = if rest.len() > 0 && rest[0] == '+' {
                i - 13
            } else {
                i - 12
            };
            assert(0 <= k < digits.len() ==> digits[k] == s[i]);
        }
    }
}

/// The line about a rule holds its number, counted from 1, the requests that it
/// is for and its service.
pub proof fn law_rule_line(i: nat, rule: IngressRule)
    ensures
        ({
            let start = "  Rule "@ + text::decimal(i + 1) + ": "@;
            let line = ingress::rule_line(i, rule);
            &&& rule.hostname@.len() == 0 ==> line == start + "(catch-all) → "@ + rule.service@
            &&& rule.hostname@.len() > 0 && rule.path@.len() == 0 ==> line == start
                + rule.hostname@ + "  →  "@ + rule.service@
            &&& rule.hostname@.len() > 0 && rule.path@.len() > 0 ==> line == start + rule.hostname@
                + "/"@ + rule.path@ + "  →  "@ + rule.service@
        }),
{
}

/// A file is read as JSON if, and only if, its extension is exactly `json`.
pub proof fn law_format(extension: Option<&str>)
    ensures
        ingress::format_of(extension) is Json <==> extension is Some && extension.unwrap()@
            == "json"@,
        ingress::format_of(extension) is Json || ingress::format_of(extension) is Yaml,
{
}

/// The file in the home directory comes before that of the whole system.
pub proof fn law_default_place(home: bool, system: bool)
    ensures
        ingress::default_place(home, system) == Some(ingress::ConfigPlace::Home) <==> home,
        ingress::default_place(home, system) == Some(ingress::ConfigPlace::System) <==> !home
            && system,
        ingress::default_place(home, system) is None <==> !home && !system,
{
}

/// The rule that is found is for the request, and no rule before it is; where none
/// is found, none is for the request.
pub proof fn law_resolved(
    rules: Seq<IngressRule>,
    host: Seq<char>,
    path: Seq<char>,
    r: Option<IngressRule>,
)
    requires
        ingress::is_resolved(rules, host, path, r),
    ensures
        r is None <==> !exists|i: int| 0 <= i < rules.len() && (#[trigger] rules[i]).applies(host, path),
        r is Some ==> exists|i: int|
            0 <= i < rules.len() && rules[i] == r.unwrap() && (#[trigger] rules[i]).applies(
                host,
                path,
            ) && !exists|j: int| 0 <= j < i && (#[trigger] rules[j]).applies(host, path),
{
    if r is Some {
        let i = choose|i: int| #[trigger]
            ingress::first_match(rules, host, path, i) && rules[i] == r.unwrap();
        assert(rules[i].applies(host, path));
        assert(!exists|j: int| 0 <= j < i && (#[trigger] rules[j]).applies(host, path));
    }
}

/// Rules that were loaded again take the place of those in use; where they could
/// not be, those in use stay as they are, and the error is told.
pub proof fn law_reload(
    current: Vec<IngressRule>,
    loaded: Result<Vec<IngressRule>, ingress::LoadError>,
    r: ingress::Reload,
)
    requires
        ingress::is_reload(current, loaded, r),
    ensures
        loaded is Ok ==> r.rules@ == loaded->Ok_0@ && r.error is None,
        loaded is Err ==> r.rules@ == current@ && r.error == Some(loaded->Err_0),
{
}

} // verus!
