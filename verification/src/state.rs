//! The view-model: all application state, and the transition that each user
//! action performs on it.
//!
//! Every transition is specified as a function on the state's mathematical
//! view, and the executable method is proved to compute exactly that
//! transition.  Network results enter as plain values (the raw response body,
//! or its absence), so each transition covers every outcome of a call.

use vstd::prelude::*;

use crate::endpoint::{
    blank_pretendo, sanitize_return_object, spec_sanitized_body, Pretendo, PretendoView,
};
use crate::wire::{
    encode_create_body, is_ws_char, parse_endpoints, spec_create_body, spec_parse_endpoints,
};

verus! {

/// One domain and the endpoints recorded under it.
pub struct DomainEntry {
    pub domain: String,
    pub pretendos: Vec<Pretendo>,
}

/// The mathematical value of a domain entry.
pub ghost struct DomainEntryView {
    pub domain: Seq<char>,
    pub pretendos: Seq<PretendoView>,
}

impl View for DomainEntry {
    type V = DomainEntryView;

    open spec fn view(&self) -> DomainEntryView {
        DomainEntryView { domain: self.domain@, pretendos: self.pretendos.deep_view() }
    }
}

impl DeepView for DomainEntry {
    type V = DomainEntryView;

    open spec fn deep_view(&self) -> DomainEntryView {
        self@
    }
}

/// The mathematical value of the whole application state.
pub ghost struct AppStateView {
    pub data: Seq<DomainEntryView>,
    pub current_domain: Seq<char>,
    pub current_pretendo: PretendoView,
    pub display_new_domain: bool,
    pub display_new_pretendo: bool,
    pub pretendos_in_current_domain: Seq<PretendoView>,
}

/// All application state: the known domains, the selection, the endpoint
/// under edit, the two dialog/panel flags, and the endpoint list of the
/// selected domain.
pub struct AppState {
    pub data: Vec<DomainEntry>,
    pub current_domain: String,
    pub current_pretendo: Pretendo,
    pub display_new_domain: bool,
    pub display_new_pretendo: bool,
    pub pretendos_in_current_domain: Vec<Pretendo>,
}

impl View for AppState {
    type V = AppStateView;

    open spec fn view(&self) -> AppStateView {
        AppStateView {
            data: self.data.deep_view(),
            current_domain: self.current_domain@,
            current_pretendo: self.current_pretendo@,
            display_new_domain: self.display_new_domain,
            display_new_pretendo: self.display_new_pretendo,
            pretendos_in_current_domain: self.pretendos_in_current_domain.deep_view(),
        }
    }
}

// ---------------------------------------------------------------------------
// The transitions, on views
// ---------------------------------------------------------------------------
/// The initial state: one entry per fetched domain, each seeded with one
/// placeholder draft, nothing selected, no dialog open.
pub open spec fn spec_init(domains: Seq<Seq<char>>) -> AppStateView {
    AppStateView {
        data: Seq::new(
            domains.len(),
            |i: int| DomainEntryView { domain: domains[i], pretendos: seq![blank_pretendo()] },
        ),
        current_domain: Seq::empty(),
        current_pretendo: blank_pretendo(),
        display_new_domain: false,
        display_new_pretendo: false,
        pretendos_in_current_domain: Seq::empty(),
    }
}

/// A name of nothing but whitespace (the empty name included), which the
/// add-domain confirmation refuses.
pub open spec fn is_blank_name(s: Seq<char>) -> bool {
    forall|i: int| 0 <= i < s.len() ==> is_ws_char(s[i])
}

/// Opening the add-domain dialog: the name field and the edit state start
/// clean, the endpoint list of the previous selection is dropped.
pub open spec fn spec_open_add_domain(pre: AppStateView) -> AppStateView {
    AppStateView {
        display_new_pretendo: false,
        current_domain: Seq::empty(),
        display_new_domain: true,
        current_pretendo: blank_pretendo(),
        pretendos_in_current_domain: Seq::empty(),
        ..pre
    }
}

/// Confirming the add-domain dialog: a non-blank name appends one domain
/// with an empty endpoint collection and closes the dialog; a blank name
/// changes nothing.
pub open spec fn spec_confirm_add_domain(pre: AppStateView) -> AppStateView {
    if is_blank_name(pre.current_domain) {
        pre
    } else {
        AppStateView {
            data: pre.data.push(
                DomainEntryView { domain: pre.current_domain, pretendos: Seq::empty() },
            ),
            display_new_domain: false,
            ..pre
        }
    }
}

/// Selecting a domain: the edit state resets, the new-endpoint panel closes,
/// the selection moves; a response that parses as a record list replaces the
/// endpoint list, anything else leaves the list untouched.
pub open spec fn spec_select_domain(
    pre: AppStateView,
    domain: Seq<char>,
    response: Option<Seq<char>>,
) -> AppStateView {
    let base = AppStateView {
        display_new_pretendo: false,
        current_pretendo: blank_pretendo(),
        current_domain: domain,
        ..pre
    };
    match response {
        Some(t) => match spec_parse_endpoints(t) {
            Some(eps) => AppStateView { pretendos_in_current_domain: eps, ..base },
            None => base,
        },
        None => base,
    }
}

/// Loading one listed endpoint into the edit panel.
pub open spec fn spec_select_pretendo(pre: AppStateView, i: int) -> AppStateView {
    AppStateView {
        display_new_pretendo: true,
        current_pretendo: pre.pretendos_in_current_domain[i],
        ..pre
    }
}

/// Opening the edit panel on a fresh draft.
pub open spec fn spec_new_pretendo(pre: AppStateView) -> AppStateView {
    AppStateView { display_new_pretendo: true, current_pretendo: blank_pretendo(), ..pre }
}

/// The body submitted by the save action: the draft's fields, its response
/// body sanitized first.
pub open spec fn spec_save_body(st: AppStateView) -> Seq<char> {
    spec_create_body(
        st.current_pretendo.path,
        spec_sanitized_body(st.current_pretendo.return_object),
        st.current_pretendo.name,
        st.current_pretendo.status_code,
    )
}

/// What the save action does once its calls return.  A failed create leaves
/// everything as it was.  A successful create closes the dialogs and clears
/// the draft; a re-fetched list that parses replaces the endpoint list, and
/// its last record — taken to be the one just created — is loaded back into
/// the edit panel.
pub open spec fn spec_apply_save(
    pre: AppStateView,
    created: bool,
    refetch: Option<Seq<char>>,
) -> AppStateView {
    if !created {
        pre
    } else {
        let cleared = AppStateView {
            display_new_domain: false,
            display_new_pretendo: false,
            current_pretendo: blank_pretendo(),
            ..pre
        };
        match refetch {
            Some(t) => match spec_parse_endpoints(t) {
                Some(eps) => if eps.len() > 0 {
                    AppStateView {
                        pretendos_in_current_domain: eps,
                        current_pretendo: eps.last(),
                        display_new_pretendo: true,
                        ..cleared
                    }
                } else {
                    AppStateView { pretendos_in_current_domain: eps, ..cleared }
                },
                None => cleared,
            },
            None => cleared,
        }
    }
}

/// The endpoints recorded under `domain`: those of the last entry with that
/// name, or none when the domain is unknown.
pub open spec fn assoc_pretendos(data: Seq<DomainEntryView>, domain: Seq<char>) -> Seq<
    PretendoView,
>
    decreases data.len(),
{
    if data.len() == 0 {
        Seq::empty()
    } else if data.last().domain == domain {
        data.last().pretendos
    } else {
        assoc_pretendos(data.drop_last(), domain)
    }
}

/// The longest domain-name character count among the known entries.
pub open spec fn max_name_len(data: Seq<DomainEntryView>) -> nat
    decreases data.len(),
{
    if data.len() == 0 {
        0
    } else {
        let m = max_name_len(data.drop_last());
        if data.last().domain.len() > m {
            data.last().domain.len()
        } else {
            m
        }
    }
}

// ---------------------------------------------------------------------------
// Laws
// ---------------------------------------------------------------------------
/// Confirming with a non-blank name appends exactly one domain carrying an
/// empty endpoint collection and closes the dialog; confirming with a blank
/// name changes nothing at all.
pub proof fn lemma_confirm_add_domain(pre: AppStateView)
    ensures
        !is_blank_name(pre.current_domain) ==> spec_confirm_add_domain(pre).data == pre.data.push(
            DomainEntryView { domain: pre.current_domain, pretendos: Seq::empty() },
        ) && spec_confirm_add_domain(pre).data.len() == pre.data.len() + 1
            && !spec_confirm_add_domain(pre).display_new_domain,
        is_blank_name(pre.current_domain) ==> spec_confirm_add_domain(pre) == pre,
{
}

/// Selecting a domain always resets the endpoint edit state and closes the
/// new-endpoint panel, whatever the fetch brought back.
pub proof fn lemma_select_domain_resets_edit(
    pre: AppStateView,
    domain: Seq<char>,
    response: Option<Seq<char>>,
)
    ensures
        spec_select_domain(pre, domain, response).current_pretendo == blank_pretendo(),
        !spec_select_domain(pre, domain, response).display_new_pretendo,
        spec_select_domain(pre, domain, response).current_domain == domain,
{
}

/// After a successful create, a re-fetch that parses and whose last record
/// is the one the service stored leaves the edit panel open on that record:
/// its identifier is present and its response body equals the sanitized form
/// of what was submitted.
pub proof fn lemma_save_success_shows_created(
    pre: AppStateView,
    t: Seq<char>,
    eps: Seq<PretendoView>,
    submitted: Seq<char>,
)
    requires
        spec_parse_endpoints(t) == Some(eps),
        eps.len() > 0,
        eps.last().id is Some,
        eps.last().return_object == spec_sanitized_body(submitted),
    ensures
        spec_apply_save(pre, true, Some(t)).display_new_pretendo,
        spec_apply_save(pre, true, Some(t)).current_pretendo == eps.last(),
        spec_apply_save(pre, true, Some(t)).current_pretendo.id is Some,
        spec_apply_save(pre, true, Some(t)).current_pretendo.return_object == spec_sanitized_body(
            submitted,
        ),
{
}

/// A failed create leaves the draft — its unsaved identifier included — and
/// the open edit panel exactly as they were.
pub proof fn lemma_save_failure_keeps_draft(pre: AppStateView, refetch: Option<Seq<char>>)
    ensures
        spec_apply_save(pre, false, refetch) == pre,
{
}

// ---------------------------------------------------------------------------
// Executable state and transitions
// ---------------------------------------------------------------------------
/// The endpoints of `domain`, as a trait of anything that records such an
/// association.
pub trait Associator {
    /// The association the implementor records.
    spec fn spec_associated(&self, domain: Seq<char>) -> Seq<PretendoView>;

    /// The endpoints recorded under `domain`.
    fn get_associated_pretendos(&self, domain: String) -> (r: Vec<Pretendo>)
        ensures
            r.deep_view() == self.spec_associated(domain@),
    ;
}

fn clone_pretendos(v: &Vec<Pretendo>) -> (r: Vec<Pretendo>)
    ensures
        r.deep_view() == v.deep_view(),
{
    let mut r: Vec<Pretendo> = Vec::new();
    let mut i: usize = 0;
    while i < v.len()
        invariant
            i <= v@.len(),
            r.deep_view() == v.deep_view().take(i as int),
        decreases v@.len() - i,
    {
        let ghost pre = r.deep_view();
        r.push(v[i].clone());
        proof {
            assert(r.deep_view() =~= pre.push(v@[i as int].deep_view()));
            assert(v.deep_view().take(i as int + 1) =~= v.deep_view().take(i as int).push(
                v@[i as int].deep_view(),
            ));
        }
        i += 1;
    }
    proof {
        assert(v.deep_view().take(v@.len() as int) =~= v.deep_view());
    }
    r
}

impl Associator for AppState {
    open spec fn spec_associated(&self, domain: Seq<char>) -> Seq<PretendoView> {
        assoc_pretendos(self@.data, domain)
    }

    fn get_associated_pretendos(&self, domain: String) -> (r: Vec<Pretendo>) {
        let mut r: Vec<Pretendo> = Vec::new();
        let mut i: usize = 0;
        while i < self.data.len()
            invariant
                i <= self.data@.len(),
                r.deep_view() == assoc_pretendos(self@.data.take(i as int), domain@),
            decreases self.data@.len() - i,
        {
            proof {
                assert(self@.data.take(i as int + 1).drop_last() =~= self@.data.take(i as int));
                assert(self@.data.take(i as int + 1).last() == self@.data[i as int]);
            }
            let e = &self.data[i];
            if e.domain == domain {
                r = clone_pretendos(&e.pretendos);
            }
            i += 1;
        }
        proof {
            assert(self@.data.take(self.data@.len() as int) =~= self@.data);
        }
        r
    }
}

fn name_is_blank(s: &str) -> (r: bool)
    ensures
        r == is_blank_name(s@),
{
    let n = s.unicode_len();
    let mut i: usize = 0;
    while i < n
        invariant
            i <= n,
            n == s@.len(),
            forall|k: int| 0 <= k < i ==> is_ws_char(s@[k]),
        decreases n - i,
    {
        let c = s.get_char(i);
        if !(c == ' ' || c == '\t' || c == '\n' || c == '\r') {
            return false;
        }
        i += 1;
    }
    true
}

impl AppState {
    /// The initial state, seeded from the fetched domain names: each gets
    /// one placeholder draft, nothing is selected, no dialog is open.
    pub fn new(domains: Vec<String>) -> (r: AppState)
        ensures
            r@ == spec_init(domains.deep_view()),
    {
        let ghost ds = domains.deep_view();
        let mut data: Vec<DomainEntry> = Vec::new();
        let mut i: usize = 0;
        while i < domains.len()
            invariant
                i <= domains@.len(),
                ds == domains.deep_view(),
                data@.len() == i,
                forall|k: int|
                    0 <= k < i ==> data.deep_view()[k] == (DomainEntryView {
                        domain: ds[k],
                        pretendos: seq![blank_pretendo()],
                    }),
            decreases domains@.len() - i,
        {
            let mut eps: Vec<Pretendo> = Vec::new();
            eps.push(Pretendo::new());
            proof {
                assert(eps.deep_view() =~= seq![blank_pretendo()]);
            }
            let ghost pre_dv = data.deep_view();
            let entry = DomainEntry { domain: domains[i].clone(), pretendos: eps };
            data.push(entry);
            proof {
                assert forall|k: int| 0 <= k < i + 1 implies data.deep_view()[k]
                    == (DomainEntryView { domain: ds[k], pretendos: seq![blank_pretendo()] }) by {
                    if k < i {
                        assert(data.deep_view()[k] == pre_dv[k]);
                    } else {
                        assert(data.deep_view()[k] == data@[k].deep_view());
                    }
                }
            }
            i += 1;
        }
        let r = AppState {
            data,
            current_domain: String::new(),
            current_pretendo: Pretendo::new(),
            display_new_domain: false,
            display_new_pretendo: false,
            pretendos_in_current_domain: Vec::new(),
        };
        proof {
            assert(r@.data =~= spec_init(ds).data);
            assert(r@.pretendos_in_current_domain =~= Seq::<PretendoView>::empty());
        }
        r
    }

    /// Whether the add-domain confirm control is enabled: exactly when the
    /// typed name is not blank.
    pub fn domain_name_accepted(&self) -> (r: bool)
        ensures
            r == !is_blank_name(self.current_domain@),
    {
        !name_is_blank(self.current_domain.as_str())
    }

    /// Opens the add-domain dialog.
    pub fn open_add_domain(&mut self)
        ensures
            final(self)@ == spec_open_add_domain(old(self)@),
    {
        self.display_new_pretendo = false;
        self.current_domain = String::new();
        self.display_new_domain = true;
        self.current_pretendo = Pretendo::new();
        self.pretendos_in_current_domain = Vec::new();
        proof {
            assert(self@.pretendos_in_current_domain =~= Seq::<PretendoView>::empty());
        }
    }

    /// Confirms the add-domain dialog; a blank name is a no-op.
    pub fn confirm_add_domain(&mut self)
        ensures
            final(self)@ == spec_confirm_add_domain(old(self)@),
    {
        if !name_is_blank(self.current_domain.as_str()) {
            let ghost pre = self@.data;
            let eps: Vec<Pretendo> = Vec::new();
            let entry = DomainEntry { domain: self.current_domain.clone(), pretendos: eps };
            proof {
                assert(entry@.pretendos =~= Seq::<PretendoView>::empty());
            }
            self.data.push(entry);
            self.display_new_domain = false;
            proof {
                assert(self@.data =~= pre.push(
                    DomainEntryView {
                        domain: old(self)@.current_domain,
                        pretendos: Seq::empty(),
                    },
                ));
            }
        }
    }

    /// Selects a domain, handing in what the endpoint fetch for it returned
    /// (`None` for a transport failure).
    pub fn select_domain(&mut self, domain: &str, response: Option<&str>)
        ensures
            final(self)@ == spec_select_domain(
                old(self)@,
                domain@,
                match response {
                    Some(t) => Some(t@),
                    None => None,
                },
            ),
    {
        self.display_new_pretendo = false;
        self.current_pretendo = Pretendo::new();
        self.current_domain = domain.to_owned();
        match response {
            Some(t) => match parse_endpoints(t) {
                Some(eps) => {
                    self.pretendos_in_current_domain = eps;
                },
                None => {},
            },
            None => {},
        }
    }

    /// Loads the listed endpoint at `index` into the edit panel.
    pub fn select_pretendo(&mut self, index: usize)
        requires
            index < old(self).pretendos_in_current_domain@.len(),
        ensures
            final(self)@ == spec_select_pretendo(old(self)@, index as int),
    {
        self.display_new_pretendo = true;
        self.current_pretendo = self.pretendos_in_current_domain[index].clone();
    }

    /// Opens the edit panel on a fresh draft.
    pub fn new_pretendo(&mut self)
        ensures
            final(self)@ == spec_new_pretendo(old(self)@),
    {
        self.display_new_pretendo = true;
        self.current_pretendo = Pretendo::new();
    }

    /// The body the save action submits: the draft's fields, the response
    /// body sanitized first.
    pub fn save_request_body(&self) -> (r: String)
        ensures
            r@ == spec_save_body(self@),
    {
        let sanitized = sanitize_return_object(self.current_pretendo.return_object.as_str());
        encode_create_body(
            self.current_pretendo.path.as_str(),
            sanitized.as_str(),
            self.current_pretendo.name.as_str(),
            self.current_pretendo.status_code.as_str(),
        )
    }

    /// Records the outcome of the save action: whether the create call
    /// succeeded, and, if it did, what the endpoint re-fetch returned.
    pub fn apply_save_result(&mut self, created: bool, refetch: Option<&str>)
        ensures
            final(self)@ == spec_apply_save(
                old(self)@,
                created,
                match refetch {
                    Some(t) => Some(t@),
                    None => None,
                },
            ),
    {
        if !created {
            return ;
        }
        self.display_new_domain = false;
        self.display_new_pretendo = false;
        self.current_pretendo = Pretendo::new();
        match refetch {
            Some(t) => match parse_endpoints(t) {
                Some(eps) => {
                    self.pretendos_in_current_domain = eps;
                    let n = self.pretendos_in_current_domain.len();
                    if n > 0 {
                        self.current_pretendo = self.pretendos_in_current_domain[n - 1].clone();
                        self.display_new_pretendo = true;
                        proof {
                            assert(self@.current_pretendo
                                == self@.pretendos_in_current_domain.last());
                        }
                    }
                },
                None => {},
            },
            None => {},
        }
    }

    /// The hyperlink shown above the edit panel: a placeholder while no
    /// domain is selected, else the selected domain joined with the path
    /// under edit.
    pub fn current_url(&self) -> (r: String)
        ensures
            self.current_domain@.len() == 0 ==> r@ == "Url: 'http://'"@,
            self.current_domain@.len() > 0 ==> r@ == "http://"@ + self.current_domain@
                + self.current_pretendo.path@,
    {
        if self.current_domain.as_str().is_empty() {
            String::from_str("Url: 'http://'")
        } else {
            let mut r = String::from_str("http://");
            r.append(self.current_domain.as_str());
            r.append(self.current_pretendo.path.as_str());
            r
        }
    }

    /// The width of the domain side panel: ten times the longest known
    /// domain-name character count.  At least one domain must be known.
    pub fn domain_panel_width(&self) -> (w: usize)
        requires
            self.data@.len() > 0,
            max_name_len(self@.data) * 10 <= usize::MAX,
        ensures
            w == max_name_len(self@.data) * 10,
    {
        let mut m: usize = 0;
        let mut i: usize = 0;
        while i < self.data.len()
            invariant
                i <= self.data@.len(),
                m as nat == max_name_len(self@.data.take(i as int)),
                max_name_len(self@.data) * 10 <= usize::MAX,
            decreases self.data@.len() - i,
        {
            proof {
                assert(self@.data.take(i as int + 1).drop_last() =~= self@.data.take(i as int));
                assert(self@.data.take(i as int + 1).last() == self@.data[i as int]);
            }
            let l = self.data[i].domain.as_str().unicode_len();
            if l > m {
                m = l;
            }
            i += 1;
        }
        proof {
            assert(self@.data.take(self.data@.len() as int) =~= self@.data);
            lemma_max_name_len_mono(self@.data);
        }
        m * 10
    }
}

/// The maximum over a prefix never exceeds the maximum over the whole.
proof fn lemma_max_name_len_mono(data: Seq<DomainEntryView>)
    ensures
        forall|i: int|
            0 <= i <= data.len() ==> max_name_len(#[trigger] data.take(i)) <= max_name_len(data),
    decreases data.len(),
{
    if data.len() > 0 {
        lemma_max_name_len_mono(data.drop_last());
        assert forall|i: int|
            0 <= i <= data.len() implies max_name_len(#[trigger] data.take(i)) <= max_name_len(
            data,
        ) by {
            if i < data.len() {
                assert(data.drop_last().take(i) =~= data.take(i));
            } else {
                assert(data.take(i) =~= data);
            }
        }
    }
}

} // verus!
