//! Pull requests of one repository, as launcher entries.

use vstd::prelude::*;
use vstd::string::*;
use crate::alfred::models::AuthorIcon;
use crate::alfred::models::IconView;
use crate::alfred::models::Item;
use crate::alfred::models::ItemView;
use crate::alfred::models::VarValue;
use crate::alfred::models::VarView;
use crate::alfred::models::icon_path_spec;
use crate::alfred::models::vars_view;
use crate::dec_digits;
use crate::u64_to_dec_string;

verus! {

/// A pull request as the remote data source reports it.
#[derive(Debug)]
pub struct PullRecord {
    pub html_url: Option<String>,
    pub title: Option<String>,
    pub number: u64,
    pub user_login: Option<String>,
    pub base_full_name: Option<String>,
    pub created_at: Option<String>,
    pub updated_at: Option<String>,
}

/// The mathematical content of a pull request.
#[verifier::ext_equal]
pub ghost struct PullView {
    pub html_url: Option<Seq<char>>,
    pub title: Option<Seq<char>>,
    pub number: u64,
    pub user_login: Option<Seq<char>>,
    pub base_full_name: Option<Seq<char>>,
    pub created_at: Option<Seq<char>>,
    pub updated_at: Option<Seq<char>>,
}

impl View for PullRecord {
    type V = PullView;

    open spec fn view(&self) -> PullView {
        PullView {
            html_url: self.html_url.deep_view(),
            title: self.title.deep_view(),
            number: self.number,
            user_login: self.user_login.deep_view(),
            base_full_name: self.base_full_name.deep_view(),
            created_at: self.created_at.deep_view(),
            updated_at: self.updated_at.deep_view(),
        }
    }
}

/// A pull request can become an entry only with a page address, a title and
/// its base repository's full name; one missing any of these is skipped.
pub open spec fn pull_has_required(p: PullView) -> bool {
    &&& p.html_url is Some
    &&& p.title is Some
    &&& p.base_full_name is Some
}

/// The login shown and used for the icon: the author's, or empty when the
/// author is unknown.
pub open spec fn pull_login(p: PullView) -> Seq<char> {
    match p.user_login {
        Some(l) => l,
        None => Seq::empty(),
    }
}

/// A timestamp carried into the variables: the recorded one, or JSON null
/// when the data source reported none.
pub open spec fn time_var(t: Option<Seq<char>>) -> VarView {
    match t {
        Some(s) => VarView::Str(s),
        None => VarView::Null,
    }
}

/// The entry a pull request becomes: its title, a subtitle naming its number
/// and author, the page address as launch argument, the author's icon, and
/// the pull request's coordinates — `owner/name#number` — as variables.
pub open spec fn pull_item_spec(p: PullView, cache_dir: Seq<char>) -> ItemView {
    let full_name = p.base_full_name->0 + seq!['#'] + dec_digits(p.number as nat);
    ItemView {
        title: p.title->0,
        subtitle: Some(seq!['#'] + dec_digits(p.number as nat) + " opened by "@ + pull_login(p)),
        uid: None,
        arg: p.html_url->0,
        html_url: None,
        matches: None,
        icon: Some(IconView { path: icon_path_spec(cache_dir, pull_login(p)) }),
        variables: Some(
            seq![
                ("created_at"@, time_var(p.created_at)),
                ("full_name"@, VarView::Str(full_name)),
                ("updated_at"@, time_var(p.updated_at)),
            ],
        ),
        mods: None,
    }
}

/// Builds the launcher entry for one pull request, or nothing when a
/// required field is missing.
pub fn pull_to_item(p: &PullRecord, cache_dir: &str) -> (out: Option<Item>)
    ensures
        out.deep_view() == (if pull_has_required(p@) {
            Some(pull_item_spec(p@, cache_dir@))
        } else {
            None::<ItemView>
        }),
{
    let html_url = match &p.html_url {
        Some(u) => u.clone(),
        None => {
            return None;
        },
    };
    let title = match &p.title {
        Some(t) => t.clone(),
        None => {
            return None;
        },
    };
    let base_full_name = match &p.base_full_name {
        Some(b) => b.clone(),
        None => {
            return None;
        },
    };
    let login = match &p.user_login {
        Some(l) => l.clone(),
        None => String::new(),
    };
    let number_str = u64_to_dec_string(p.number);

    let mut subtitle = String::from_str("#");
    subtitle.append(number_str.as_str());
    subtitle.append(" opened by ");
    subtitle.append(login.as_str());
    proof {
        reveal_strlit("#");
        assert("#"@ =~= seq!['#']);
        assert(subtitle@ =~= seq!['#'] + dec_digits(p@.number as nat) + " opened by "@ + pull_login(
            p@,
        ));
    }

    let mut full_name = base_full_name;
    crate::push_char(&mut full_name, '#');
    full_name.append(number_str.as_str());
    proof {
        assert(full_name@ =~= p@.base_full_name->0 + seq!['#'] + dec_digits(p@.number as nat));
    }

    let icon = AuthorIcon::from_str(login.as_str()).into_icon(cache_dir);

    let mut vars: Vec<(String, VarValue)> = Vec::new();
    let created = match &p.created_at {
        Some(t) => VarValue::Str(t.clone()),
        None => VarValue::Null,
    };
    let updated = match &p.updated_at {
        Some(t) => VarValue::Str(t.clone()),
        None => VarValue::Null,
    };
    vars.push((String::from_str("created_at"), created));
    vars.push((String::from_str("full_name"), VarValue::Str(full_name)));
    vars.push((String::from_str("updated_at"), updated));

    let item = Item {
        title,
        subtitle: Some(subtitle),
        uid: None,
        arg: html_url,
        html_url: None,
        matches: None,
        icon: Some(icon),
        variables: Some(vars),
        mods: None,
    };
    proof {
        assert(vars_view(vars@) =~~= pull_item_spec(p@, cache_dir@).variables->0);
        assert(item@ =~~= pull_item_spec(p@, cache_dir@));
    }
    Some(item)
}

} // verus!
