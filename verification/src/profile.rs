//! Profile tokens: `<ignored>:<host>:<domain>:<api_key>`.

use vstd::prelude::*;
use crate::error::{UpdateError, UpdateErrorView};
use crate::text::{
    join_with, lemma_join_of_split, lemma_split_of_join, lemma_split_on_nonempty,
    lemma_split_pieces_free, split_on, split_str, views_of,
};

verus! {

/// One DNS record to keep pointed at the caller's public address.
#[derive(Debug)]
pub struct Profile {
    pub host: String,
    pub domain: String,
    pub api_key: String,
}

/// A `Profile` as plain character sequences.
pub ghost struct ProfileView {
    pub host: Seq<char>,
    pub domain: Seq<char>,
    pub api_key: Seq<char>,
}

impl View for Profile {
    type V = ProfileView;

    open spec fn view(&self) -> ProfileView {
        ProfileView { host: self.host@, domain: self.domain@, api_key: self.api_key@ }
    }
}

/// The segments of a token that are still to be read, handed out one at a
/// time from the front.
pub struct Fields {
    items: Vec<String>,
    next: usize,
}

impl Fields {
    #[verifier::type_invariant]
    closed spec fn inv(&self) -> bool {
        self.next <= self.items@.len()
    }

    /// The segments not yet handed out, in order.
    pub closed spec fn remaining(&self) -> Seq<Seq<char>> {
        views_of(self.items@).skip(self.next as int)
    }

    /// The segments of `token` that follow its first one: the first segment
    /// is a reserved slot and is not read.
    pub fn after_prefix(token: &str) -> (fields: Fields)
        ensures
            fields.remaining() == split_on(token@, ':').drop_first(),
    {
        let items = split_str(token, ':');
        proof {
            lemma_split_on_nonempty(token@, ':');
            assert(views_of(items@).skip(1) == split_on(token@, ':').drop_first());
        }
        Fields { items, next: 1 }
    }

    /// Hands out the next segment, if one is left.
    pub fn next(&mut self) -> (field: Option<String>)
        ensures
            old(self).remaining().len() > 0 ==> field is Some && field.unwrap()@ == old(
                self,
            ).remaining()[0] && final(self).remaining() == old(self).remaining().drop_first(),
            old(self).remaining().len() == 0 ==> field is None && final(self).remaining() == old(
                self,
            ).remaining(),
    {
        proof {
            use_type_invariant(&*self);
        }
        if self.next < self.items.len() {
            let field = self.items[self.next].clone();
            self.next = self.next + 1;
            proof {
                assert(final(self).remaining() == old(self).remaining().drop_first());
            }
            Some(field)
        } else {
            None
        }
    }
}

/// What a token parses to: the second, third and fourth of its
/// colon-separated segments as host, domain and key, or the name of the first
/// of them that the token does not reach.
pub open spec fn parse_profile(token: Seq<char>) -> Result<ProfileView, UpdateErrorView> {
    let segments = split_on(token, ':');
    if segments.len() < 2 {
        Err(UpdateErrorView::MissingArg("host"@))
    } else if segments.len() < 3 {
        Err(UpdateErrorView::MissingArg("domain"@))
    } else if segments.len() < 4 {
        Err(UpdateErrorView::MissingArg("api_key"@))
    } else {
        Ok(ProfileView { host: segments[1], domain: segments[2], api_key: segments[3] })
    }
}

/// The names of the three fields, in the order in which a token holds them.
pub open spec fn field_names() -> Seq<Seq<char>> {
    seq!["host"@, "domain"@, "api_key"@]
}

/// A token with fewer than three segments after its first fails, and the
/// error names the first field that it does not reach.
pub proof fn lemma_first_missing_field(token: Seq<char>)
    requires
        split_on(token, ':').len() < 4,
    ensures
        parse_profile(token) == Err::<ProfileView, UpdateErrorView>(
            UpdateErrorView::MissingArg(field_names()[split_on(token, ':').len() - 1]),
        ),
{
    lemma_split_on_nonempty(token, ':');
}

/// A token with three segments or more after its first parses, to the first
/// three of them.
pub proof fn lemma_parses_with_three_fields(token: Seq<char>)
    requires
        split_on(token, ':').len() >= 4,
    ensures
        parse_profile(token) == Ok::<ProfileView, UpdateErrorView>(
            ProfileView {
                host: split_on(token, ':')[1],
                domain: split_on(token, ':')[2],
                api_key: split_on(token, ':')[3],
            },
        ),
{
}

/// A parse result as plain character sequences.
pub open spec fn parsed_view(r: Result<Profile, UpdateError>) -> Result<
    ProfileView,
    UpdateErrorView,
> {
    match r {
        Ok(profile) => Ok(profile@),
        Err(error) => Err(error@),
    }
}

/// Takes the next segment for the field called `field`, or reports that
/// field as missing where no segment is left.
pub fn try_next(fields: &mut Fields, field: &'static str) -> (r: Result<String, UpdateError>)
    ensures
        old(fields).remaining().len() > 0 ==> r is Ok && r.unwrap()@ == old(fields).remaining()[0]
            && final(fields).remaining() == old(fields).remaining().drop_first(),
        old(fields).remaining().len() == 0 ==> r is Err && r.unwrap_err()@
            == UpdateErrorView::MissingArg(field@) && final(fields).remaining() == old(
            fields,
        ).remaining(),
{
    match fields.next() {
        Some(value) => Ok(value),
        None => Err(UpdateError::MissingArg(field)),
    }
}

/// Reads one profile token. The first segment is skipped; host, domain and
/// key are the three after it, taken as they stand, empty or not. Segments
/// beyond the fourth are not read.
pub fn try_parse_profile(profile: String) -> (r: Result<Profile, UpdateError>)
    ensures
        parsed_view(r) == parse_profile(profile@),
{
    let mut fields = Fields::after_prefix(profile.as_str());
    let host = match try_next(&mut fields, "host") {
        Ok(value) => value,
        Err(error) => {
            return Err(error);
        },
    };
    let domain = match try_next(&mut fields, "domain") {
        Ok(value) => value,
        Err(error) => {
            return Err(error);
        },
    };
    let api_key = match try_next(&mut fields, "api_key") {
        Ok(value) => value,
        Err(error) => {
            return Err(error);
        },
    };
    Ok(Profile { host, domain, api_key })
}

/// The views of a vector of profiles, element by element.
pub open spec fn profile_views(v: Seq<Profile>) -> Seq<ProfileView> {
    Seq::new(v.len(), |i: int| v[i]@)
}

/// Reads every token, in order. One token that does not parse fails the
/// whole list, with the error of the first such token: no partial list is
/// handed out.
pub fn parse_profiles(tokens: &Vec<String>) -> (r: Result<Vec<Profile>, UpdateError>)
    ensures
        match r {
            Ok(profiles) => profiles@.len() == tokens@.len() && forall|i: int|
                0 <= i < tokens@.len() ==> parse_profile(#[trigger] tokens@[i]@) == Ok::<
                    ProfileView,
                    UpdateErrorView,
                >(profiles@[i]@),
            Err(error) => exists|k: int|
                0 <= k < tokens@.len() && parse_profile(#[trigger] tokens@[k]@) == Err::<
                    ProfileView,
                    UpdateErrorView,
                >(error@) && forall|i: int|
                    0 <= i < k ==> parse_profile(#[trigger] tokens@[i]@) is Ok,
        },
{
    let mut profiles: Vec<Profile> = Vec::new();
    let n: usize = tokens.len();
    let mut k: usize = 0;
    while k < n
        invariant
            n == tokens@.len(),
            k <= n,
            profiles@.len() == k,
            forall|i: int|
                0 <= i < k ==> parse_profile(#[trigger] tokens@[i]@) == Ok::<
                    ProfileView,
                    UpdateErrorView,
                >(profiles@[i]@),
        decreases n - k,
    {
        match try_parse_profile(tokens[k].clone()) {
            Ok(profile) => {
                profiles.push(profile);
            },
            Err(error) => {
                assert(parse_profile(tokens@[k as int]@) == Err::<ProfileView, UpdateErrorView>(
                    error@,
                ));
                return Err(error);
            },
        }
        k = k + 1;
    }
    Ok(profiles)
}

/// A token written out: a first segment, then host, domain and key, with a
/// colon between neighbours.
pub open spec fn profile_token(
    prefix: Seq<char>,
    host: Seq<char>,
    domain: Seq<char>,
    api_key: Seq<char>,
) -> Seq<char> {
    prefix + seq![':'] + host + seq![':'] + domain + seq![':'] + api_key
}

/// Values that hold no colon, written into a token, are read back exactly as
/// they were, whatever colon-free text stands in the first segment.
pub proof fn lemma_parse_of_token(
    prefix: Seq<char>,
    host: Seq<char>,
    domain: Seq<char>,
    api_key: Seq<char>,
)
    requires
        !prefix.contains(':'),
        !host.contains(':'),
        !domain.contains(':'),
        !api_key.contains(':'),
    ensures
        parse_profile(profile_token(prefix, host, domain, api_key)) == Ok::<
            ProfileView,
            UpdateErrorView,
        >(ProfileView { host, domain, api_key }),
{
    let parts = seq![prefix, host, domain, api_key];
    lemma_token_is_join(prefix, host, domain, api_key);
    lemma_split_of_join(parts, ':');
}

/// A token of exactly four segments is its first segment and the three
/// parsed values written out again.
pub proof fn lemma_token_of_parse(token: Seq<char>)
    requires
        split_on(token, ':').len() == 4,
    ensures
        parse_profile(token) is Ok,
        profile_token(
            split_on(token, ':')[0],
            parse_profile(token)->Ok_0.host,
            parse_profile(token)->Ok_0.domain,
            parse_profile(token)->Ok_0.api_key,
        ) == token,
{
    let parts = split_on(token, ':');
    lemma_join_of_split(token, ':');
    lemma_token_is_join(parts[0], parts[1], parts[2], parts[3]);
    assert(seq![parts[0], parts[1], parts[2], parts[3]] == parts);
}

/// None of the three values of a token that parses holds a colon.
pub proof fn lemma_parsed_values_colon_free(token: Seq<char>)
    requires
        parse_profile(token) is Ok,
    ensures
        !parse_profile(token)->Ok_0.host.contains(':'),
        !parse_profile(token)->Ok_0.domain.contains(':'),
        !parse_profile(token)->Ok_0.api_key.contains(':'),
{
    lemma_split_pieces_free(token, ':');
    let parts = split_on(token, ':');
    assert(!parts[1].contains(':'));
    assert(!parts[2].contains(':'));
    assert(!parts[3].contains(':'));
}

proof fn lemma_token_is_join(
    prefix: Seq<char>,
    host: Seq<char>,
    domain: Seq<char>,
    api_key: Seq<char>,
)
    ensures
        profile_token(prefix, host, domain, api_key) == join_with(
            seq![prefix, host, domain, api_key],
            ':',
        ),
{
    let all = seq![prefix, host, domain, api_key];
    let values = seq![host, domain, api_key];
    let tail = seq![domain, api_key];
    let last = seq![api_key];
    assert(all.drop_first() == values);
    assert(values.drop_first() == tail);
    assert(tail.drop_first() == last);
    assert(join_with(last, ':') == api_key);
    assert(join_with(tail, ':') == domain + seq![':'] + api_key);
    assert(join_with(values, ':') == host + seq![':'] + (domain + seq![':'] + api_key));
    assert(join_with(all, ':') == prefix + seq![':'] + (host + seq![':'] + (domain + seq![':']
        + api_key)));
    assert(join_with(all, ':') == profile_token(prefix, host, domain, api_key));
}

} // verus!
