//! Clipboard rules: which copy-helper invocation fits the focused
//! application, decided by wildcard patterns.

use vstd::prelude::*;
use vstd::string::*;

verus! {

/// One clipboard rule: a wildcard pattern over the focused application's
/// identifier, and the arguments handed to the copy helper when it matches.
#[derive(Debug)]
pub struct Rule {
    pub focusedapp: String,
    pub mdcopy: String,
}

/// The mathematical content of a rule.
#[verifier::ext_equal]
pub ghost struct RuleView {
    pub focusedapp: Seq<char>,
    pub mdcopy: Seq<char>,
}

impl View for Rule {
    type V = RuleView;

    open spec fn view(&self) -> RuleView {
        RuleView { focusedapp: self.focusedapp@, mdcopy: self.mdcopy@ }
    }
}

impl DeepView for Rule {
    type V = RuleView;

    open spec fn deep_view(&self) -> RuleView {
        self.view()
    }
}

/// The clipboard rules, tried in order.
#[derive(Debug)]
pub struct CopyConfig {
    pub rules: Vec<Rule>,
}

/// What the wildmatch crate's matcher decides for a pattern and an input;
/// in a pattern `*` matches any run of characters and `?` exactly one. The
/// result depends on the pattern's and the input's characters alone.
pub uninterp spec fn wild_matches(pattern: Seq<char>, text: Seq<char>) -> bool;

/// Relies on wildmatch's `WildMatch::new` and `WildMatchPattern::matches`:
/// whether the pattern matches the entirety of the input.
#[verifier::external_body]
fn wildmatch_matches(pattern: &str, text: &str) -> (r: bool)
    ensures
        r == wild_matches(pattern@, text@),
{
    wildmatch::WildMatch::new(pattern).matches(text)
}

/// The first rule whose pattern matches the focused application.
pub open spec fn selected_rule(rules: Seq<RuleView>, app: Seq<char>) -> Option<RuleView>
    decreases rules.len(),
{
    if rules.len() == 0 {
        None
    } else if wild_matches(rules[0].focusedapp, app) {
        Some(rules[0])
    } else {
        selected_rule(rules.drop_first(), app)
    }
}

/// The rules shipped by default: the browsers copy a markdown link, anything
/// else plain text.
pub open spec fn default_rules() -> Seq<RuleView> {
    seq![
        RuleView {
            focusedapp: "com.microsoft.edgemac"@,
            mdcopy: "-f markdown --trim -t -i \"[$full_name]($html_url)\""@,
        },
        RuleView {
            focusedapp: "com.google.Chrome"@,
            mdcopy: "-f markdown --trim -t -i \"[$full_name]($html_url)\""@,
        },
        RuleView {
            focusedapp: "com.apple.Safari"@,
            mdcopy: "-f markdown --trim -t -i \"[$full_name]($html_url)\""@,
        },
        RuleView {
            focusedapp: "*"@,
            mdcopy: "-f text --trim -t -i \"[$full_name]($html_url)\""@,
        },
    ]
}

impl CopyConfig {
    /// Whether this configuration holds exactly the default rules.
    pub open spec fn is_default(&self) -> bool {
        self.rules.deep_view() == default_rules()
    }

    /// Picks the first rule whose pattern matches the focused application,
    /// or nothing when none matches.
    pub fn select_rule(&self, focusedapp: &str) -> (r: Option<&Rule>)
        ensures
            match r {
                Some(rule) => selected_rule(self.rules.deep_view(), focusedapp@) == Some(rule@),
                None => selected_rule(self.rules.deep_view(), focusedapp@) is None,
            },
    {
        let mut i: usize = 0;
        proof {
            assert(self.rules.deep_view().skip(0) =~= self.rules.deep_view());
        }
        while i < self.rules.len()
            invariant
                0 <= i <= self.rules.len(),
                selected_rule(self.rules.deep_view(), focusedapp@) == selected_rule(
                    self.rules.deep_view().skip(i as int),
                    focusedapp@,
                ),
            decreases self.rules.len() - i,
        {
            let ghost rest = self.rules.deep_view().skip(i as int);
            proof {
                assert(rest[0] == self.rules.deep_view()[i as int]);
                assert(rest.drop_first() =~= self.rules.deep_view().skip(i + 1));
            }
            if wildmatch_matches(self.rules[i].focusedapp.as_str(), focusedapp) {
                return Some(&self.rules[i]);
            }
            i += 1;
        }
        proof {
            assert(self.rules.deep_view().skip(self.rules.deep_view().len() as int) =~= Seq::<
                RuleView,
            >::empty());
        }
        None
    }
}

impl Default for CopyConfig {
    /// The default rules, in their documented order.
    fn default() -> (c: CopyConfig)
        ensures
            c.is_default(),
    {
        let md = "-f markdown --trim -t -i \"[$full_name]($html_url)\"";
        let txt = "-f text --trim -t -i \"[$full_name]($html_url)\"";
        let mut rules: Vec<Rule> = Vec::new();
        rules.push(
            Rule {
                focusedapp: String::from_str("com.microsoft.edgemac"),
                mdcopy: md.to_owned(),
            },
        );
        rules.push(
            Rule { focusedapp: String::from_str("com.google.Chrome"), mdcopy: md.to_owned() },
        );
        rules.push(
            Rule { focusedapp: String::from_str("com.apple.Safari"), mdcopy: md.to_owned() },
        );
        rules.push(Rule { focusedapp: String::from_str("*"), mdcopy: txt.to_owned() });
        proof {
            assert(rules.deep_view() =~~= default_rules());
        }
        CopyConfig { rules }
    }
}

/// The command line the copy action hands to the shell: the copy helper
/// followed by the selected rule's arguments.
pub fn build_cmdline(mdcopy_args: &str) -> (r: String)
    ensures
        r@ == "$mdcopy "@ + mdcopy_args@,
{
    let mut out = String::from_str("$mdcopy ");
    out.append(mdcopy_args);
    out
}

} // verus!
