//! Issue and pull-request search: which query to run, and how a found issue
//! becomes a launcher entry.

use vstd::prelude::*;
use vstd::string::*;
use crate::alfred::models::AuthorIcon;
use crate::alfred::models::IconView;
use crate::alfred::models::Item;
use crate::alfred::models::ItemView;
use crate::alfred::models::VarValue;
use crate::alfred::models::VarView;
use crate::alfred::models::icon_path_spec;
use crate::alfred::models::vars_view;
use crate::args::SearchQuery;
use crate::dec_digits;
use crate::find_char;
use crate::lemma_find_char;
use crate::u64_to_dec_string;

verus! {

/// The queries the two canned searches run.
#[derive(Debug)]
pub struct SearchIssuesConfig {
    pub reviews: String,
    pub pulls: String,
}

impl SearchIssuesConfig {
    /// Whether both queries are the shipped defaults.
    pub open spec fn is_default(&self) -> bool {
        &&& self.reviews@ == "is:open is:pr user-review-requested:@me archived:false"@
        &&& self.pulls@ == "is:open is:pr archived:false author:@me"@
    }

    /// The query string a search runs: one of the configured canned queries,
    /// or the custom query verbatim.
    pub fn query_string(&self, query: &SearchQuery) -> (r: String)
        ensures
            r@ == (match query {
                SearchQuery::Reviews => self.reviews@,
                SearchQuery::Pulls => self.pulls@,
                SearchQuery::Custom { query: q } => q@,
            }),
    {
        match query {
            SearchQuery::Reviews => self.reviews.clone(),
            SearchQuery::Pulls => self.pulls.clone(),
            SearchQuery::Custom { query: q } => q.clone(),
        }
    }
}

impl Default for SearchIssuesConfig {
    /// The shipped queries: reviews asked of the user, and the user's own
    /// open pull requests.
    fn default() -> (c: SearchIssuesConfig)
        ensures
            c.is_default(),
    {
        SearchIssuesConfig {
            reviews: String::from_str("is:open is:pr user-review-requested:@me archived:false"),
            pulls: String::from_str("is:open is:pr archived:false author:@me"),
        }
    }
}

/// An issue or pull request as the search returns it.
#[derive(Debug)]
pub struct IssueRecord {
    pub html_url: String,
    pub number: u64,
    pub title: String,
    pub user_login: String,
    pub created_at: String,
    pub updated_at: String,
}

/// The mathematical content of a found issue.
#[verifier::ext_equal]
pub ghost struct IssueView {
    pub html_url: Seq<char>,
    pub number: u64,
    pub title: Seq<char>,
    pub user_login: Seq<char>,
    pub created_at: Seq<char>,
    pub updated_at: Seq<char>,
}

impl View for IssueRecord {
    type V = IssueView;

    open spec fn view(&self) -> IssueView {
        IssueView {
            html_url: self.html_url@,
            number: self.number,
            title: self.title@,
            user_login: self.user_login@,
            created_at: self.created_at@,
            updated_at: self.updated_at@,
        }
    }
}

/// The repository coordinates at the front of an issue's page address: after
/// `https://github.com/` a non-empty owner up to the next `/`, then a
/// non-empty name up to the following `/` or the end. An address of another
/// shape yields nothing.
pub open spec fn extract_full_name_spec(url: Seq<char>) -> Option<Seq<char>> {
    let prefix = "https://github.com/"@;
    if !prefix.is_prefix_of(url) {
        None
    } else {
        let rest = url.skip(prefix.len() as int);
        let j = find_char(rest, '/');
        if j <= 0 {
            None
        } else {
            let after = rest.skip(j + 1);
            let k = find_char(after, '/');
            let name = if k < 0 {
                after
            } else {
                after.take(k)
            };
            if name.len() == 0 {
                None
            } else {
                Some(rest.take(j) + seq!['/'] + name)
            }
        }
    }
}

/// Reads `owner/name` off the front of an issue's page address.
pub fn extract_full_name(url: &str) -> (r: Option<String>)
    ensures
        r.deep_view() == extract_full_name_spec(url@),
{
    let prefix = "https://github.com/";
    let plen = prefix.unicode_len();
    let n = url.unicode_len();
    if n < plen {
        proof {
            assert(!"https://github.com/"@.is_prefix_of(url@));
        }
        return None;
    }
    let head = url.substring_char(0, plen);
    if !crate::str_eq(head, prefix) {
        proof {
            assert(head@ =~= url@.take(plen as int));
            assert(!"https://github.com/"@.is_prefix_of(url@));
        }
        return None;
    }
    proof {
        assert(head@ =~= url@.take(plen as int));
        assert("https://github.com/"@.is_prefix_of(url@));
    }
    let ghost rest_spec = url@.skip(plen as int);
    // find the slash ending the owner
    let mut j: usize = plen;
    loop
        invariant
            plen <= j <= n,
            n == url@.len(),
            plen == "https://github.com/"@.len(),
            forall|k: int| plen <= k < j ==> url@[k] != '/',
        ensures
            plen <= j <= n,
            n == url@.len(),
            forall|k: int| plen <= k < j ==> url@[k] != '/',
            j < n ==> url@[j as int] == '/',
        decreases n - j,
    {
        if j == n {
            break;
        }
        if url.get_char(j) == '/' {
            break;
        }
        j += 1;
    }
    proof {
        lemma_find_char(rest_spec, '/');
        assert forall|k: int| 0 <= k < j - plen implies rest_spec[k] != '/' by {
            assert(rest_spec[k] == url@[k + plen]);
        }
    }
    if j == n || j == plen {
        proof {
            if j == n {
                assert(find_char(rest_spec, '/') == -1) by {
                    if find_char(rest_spec, '/') != -1 {
                        let f = find_char(rest_spec, '/');
                        assert(rest_spec[f] == url@[f + plen]);
                    }
                }
            } else {
                assert(rest_spec[0] == url@[plen as int]);
                assert(find_char(rest_spec, '/') == 0) by {
                    lemma_find_char(rest_spec, '/');
                }
            }
        }
        return None;
    }
    proof {
        assert(url@[j as int] == '/');
        assert(rest_spec[j - plen] == '/');
        assert(find_char(rest_spec, '/') == j - plen) by {
            lemma_find_char(rest_spec, '/');
            let f = find_char(rest_spec, '/');
            if f != -1 && f < j - plen {
                assert(rest_spec[f] == url@[f + plen]);
            }
            if f == -1 {
                assert(rest_spec[j - plen] != '/');
            }
        }
    }
    let ghost after_spec = rest_spec.skip(j - plen + 1);
    // find the slash or end closing the name
    let mut k: usize = j + 1;
    loop
        invariant
            j + 1 <= k <= n,
            n == url@.len(),
            forall|m: int| j + 1 <= m < k ==> url@[m] != '/',
        ensures
            j + 1 <= k <= n,
            n == url@.len(),
            forall|m: int| j + 1 <= m < k ==> url@[m] != '/',
            k < n ==> url@[k as int] == '/',
        decreases n - k,
    {
        if k == n {
            break;
        }
        if url.get_char(k) == '/' {
            break;
        }
        k += 1;
    }
    proof {
        lemma_find_char(after_spec, '/');
        assert(after_spec =~= url@.skip(j + 1));
        assert forall|m: int| 0 <= m < k - j - 1 implies after_spec[m] != '/' by {
            assert(after_spec[m] == url@[m + j + 1]);
        }
        if k == n {
            assert(find_char(after_spec, '/') == -1) by {
                if find_char(after_spec, '/') != -1 {
                    let f = find_char(after_spec, '/');
                    assert(after_spec[f] == url@[f + j + 1]);
                }
            }
        } else {
            assert(url@[k as int] == '/');
            assert(after_spec[k - j - 1] == '/');
            assert(find_char(after_spec, '/') == k - j - 1) by {
                let f = find_char(after_spec, '/');
                if f != -1 && f < k - j - 1 {
                    assert(after_spec[f] == url@[f + j + 1]);
                }
                if f == -1 {
                    assert(after_spec[k - j - 1] != '/');
                }
            }
        }
    }
    if k == j + 1 {
        proof {
            let js = j - plen;
            let ks = find_char(after_spec, '/');
            assert(ks == 0 || after_spec.len() == 0);
            if find_char(after_spec, '/') < 0 {
                assert(after_spec.len() == 0);
                assert(extract_full_name_spec(url@) is None);
            } else {
                assert(after_spec.take(0).len() == 0);
                assert(extract_full_name_spec(url@) is None);
            }
        }
        return None;
    }
    let full = url.substring_char(plen, k);
    proof {
        let js = j - plen;
        let name_spec = if find_char(after_spec, '/') < 0 {
            after_spec
        } else {
            after_spec.take(find_char(after_spec, '/'))
        };
        assert(name_spec =~= url@.subrange(j + 1, k as int));
        assert(full@ =~= rest_spec.take(js) + seq!['/'] + name_spec);
    }
    Some(full.to_owned())
}

/// The entry a found issue becomes: its title, a subtitle naming the issue
/// and who opened it, the page address as launch argument, an icon for the
/// repository owner when the search was for the user's own pull requests and
/// otherwise for the issue's author, and the issue's coordinates as
/// variables. An issue whose page address does not name a repository yields
/// nothing.
pub open spec fn issue_item_spec(v: IssueView, query: SearchQuery, cache_dir: Seq<char>) -> Option<
    ItemView,
> {
    match extract_full_name_spec(v.html_url) {
        None => None,
        Some(repo) => {
            let full_name = repo + seq!['#'] + dec_digits(v.number as nat);
            let owner = match query {
                SearchQuery::Pulls => repo.take(find_char(repo, '/')),
                _ => v.user_login,
            };
            Some(
                ItemView {
                    title: v.title,
                    subtitle: Some(full_name + " opened by "@ + v.user_login),
                    uid: None,
                    arg: v.html_url,
                    html_url: None,
                    matches: None,
                    icon: Some(IconView { path: icon_path_spec(cache_dir, owner) }),
                    variables: Some(
                        seq![
                            ("created_at"@, VarView::Str(v.created_at)),
                            ("full_name"@, VarView::Str(full_name)),
                            ("html_url"@, VarView::Str(v.html_url)),
                            ("owner"@, VarView::Str(owner)),
                            ("updated_at"@, VarView::Str(v.updated_at)),
                        ],
                    ),
                    mods: None,
                },
            )
        },
    }
}

/// Builds the launcher entry for one found issue, or nothing when its page
/// address does not name a repository.
pub fn issue_to_item(issue: &IssueRecord, query: &SearchQuery, cache_dir: &str) -> (out: Option<
    Item,
>)
    ensures
        out.deep_view() == issue_item_spec(issue@, *query, cache_dir@),
{
    let repo = match extract_full_name(issue.html_url.as_str()) {
        Some(r) => r,
        None => {
            return None;
        },
    };
    let mut full_name = repo.clone();
    crate::push_char(&mut full_name, '#');
    let number_str = u64_to_dec_string(issue.number);
    full_name.append(number_str.as_str());
    proof {
        assert(full_name@ =~= extract_full_name_spec(issue@.html_url)->0 + seq!['#'] + dec_digits(
            issue@.number as nat,
        ));
    }
    let owner: String = match query {
        SearchQuery::Pulls => {
            let ghost repo_view = repo@;
            let n = repo.as_str().unicode_len();
            let mut j: usize = 0;
            loop
                invariant
                    0 <= j <= n,
                    n == repo@.len(),
                    forall|k: int| 0 <= k < j ==> repo@[k] != '/',
                ensures
                    0 <= j <= n,
                    n == repo@.len(),
                    forall|k: int| 0 <= k < j ==> repo@[k] != '/',
                    j < n ==> repo@[j as int] == '/',
                decreases n - j,
            {
                if j == n {
                    break;
                }
                if repo.as_str().get_char(j) == '/' {
                    break;
                }
                j += 1;
            }
            proof {
                lemma_find_char(repo@, '/');
                if j < n {
                    assert(repo@[j as int] == '/');
                    let f = find_char(repo@, '/');
                    assert(f == j);
                } else {
                    let f = find_char(repo@, '/');
                    if f != -1 {
                        assert(repo@[f] == '/');
                    }
                    assert(f == -1);
                    assert(repo@.take(f) =~= repo@.take(-1));
                }
            }
            if j < n {
                let owner_part = repo.as_str().substring_char(0, j);
                proof {
                    assert(owner_part@ =~= repo@.take(find_char(repo@, '/')));
                }
                owner_part.to_owned()
            } else {
                // the extracted repository always carries a slash
                proof {
                    let url = issue@.html_url;
                    let prefix = "https://github.com/"@;
                    let rest = url.skip(prefix.len() as int);
                    let jj = find_char(rest, '/');
                    lemma_find_char(rest, '/');
                    assert(jj > 0);
                    assert(0 <= jj < rest.len());
                    let after = rest.skip(jj + 1);
                    let kk = find_char(after, '/');
                    let name = if kk < 0 {
                        after
                    } else {
                        after.take(kk)
                    };
                    assert(repo@ == rest.take(jj) + seq!['/'] + name);
                    assert(rest.take(jj).len() == jj);
                    assert(repo@[jj] == '/');
                }
                let empty_owner = String::new();
                empty_owner
            }
        },
        _ => issue.user_login.clone(),
    };
    let icon = AuthorIcon::from_str(owner.as_str()).into_icon(cache_dir);
    let mut subtitle = full_name.clone();
    subtitle.append(" opened by ");
    subtitle.append(issue.user_login.as_str());

    let mut vars: Vec<(String, VarValue)> = Vec::new();
    vars.push((String::from_str("created_at"), VarValue::Str(issue.created_at.clone())));
    vars.push((String::from_str("full_name"), VarValue::Str(full_name.clone())));
    vars.push((String::from_str("html_url"), VarValue::Str(issue.html_url.clone())));
    vars.push((String::from_str("owner"), VarValue::Str(owner.clone())));
    vars.push((String::from_str("updated_at"), VarValue::Str(issue.updated_at.clone())));

    let item = Item {
        title: issue.title.clone(),
        subtitle: Some(subtitle),
        uid: None,
        arg: issue.html_url.clone(),
        html_url: None,
        matches: None,
        icon: Some(icon),
        variables: Some(vars),
        mods: None,
    };
    proof {
        assert(vars_view(vars@) =~~= issue_item_spec(issue@, *query, cache_dir@)->0.variables->0);
        assert(item@ =~~= issue_item_spec(issue@, *query, cache_dir@)->0);
    }
    Some(item)
}

} // verus!
