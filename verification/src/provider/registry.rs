//! The providers that there are.
use crate::order::{is_before, text_before};
use crate::text::{concat2, concat3, same_text, views};
use vstd::prelude::*;

verus! {

/// Why there is no registry.
#[derive(Debug, PartialEq)]
pub enum RegistryError {
    Duplicate(String),
    Empty,
    MissingDefault(String),
}

/// What a [`RegistryError`] says.
pub enum RegistryFault {
    Duplicate(Seq<char>),
    Empty,
    MissingDefault(Seq<char>),
}

impl RegistryFault {
    /// The words of the error.
    pub open spec fn words(self) -> Seq<char> {
        match self {
            RegistryFault::Duplicate(id) => "duplicate model provider "@ + id,
            RegistryFault::Empty => "provider registry cannot be empty"@,
            RegistryFault::MissingDefault(id) => "default model provider "@ + id
                + " is not registered"@,
        }
    }
}

impl View for RegistryError {
    type V = RegistryFault;

    open spec fn view(&self) -> RegistryFault {
        match self {
            RegistryError::Duplicate(id) => RegistryFault::Duplicate(id@),
            RegistryError::Empty => RegistryFault::Empty,
            RegistryError::MissingDefault(id) => RegistryFault::MissingDefault(id@),
        }
    }
}

impl RegistryError {
    /// The words of the error.
    pub fn message(&self) -> (text: String)
        ensures
            text@ == self@.words(),
    {
        match self {
            RegistryError::Duplicate(id) => concat2("duplicate model provider ", id.as_str()),
            RegistryError::Empty => "provider registry cannot be empty".to_owned(),
            RegistryError::MissingDefault(id) => concat3(
                "default model provider ",
                id.as_str(),
                " is not registered",
            ),
        }
    }
}

/// The names of the providers, in order, with the place of each among those that
/// were handed in, and the name of the default provider.
#[derive(Debug)]
pub struct ProviderRegistry {
    default_provider: String,
    names: Vec<String>,
    places: Vec<usize>,
}

/// What a [`ProviderRegistry`] stands for.
pub struct RegistryView {
    pub default_provider: Seq<char>,
    pub names: Seq<Seq<char>>,
    pub places: Seq<usize>,
}

impl View for ProviderRegistry {
    type V = RegistryView;

    closed spec fn view(&self) -> RegistryView {
        RegistryView {
            default_provider: self.default_provider@,
            names: views(self.names@),
            places: self.places@,
        }
    }
}

/// Whether the names are in order, without one twice.
pub open spec fn in_order(names: Seq<Seq<char>>) -> bool {
    forall|i: int, j: int|
        0 <= i < j < names.len() ==> text_before(#[trigger] names[i], #[trigger] names[j])
}

impl RegistryView {
    /// Whether the registry holds the providers called `ids`: each once, in the
    /// order of their names, and the default among them.
    pub open spec fn holds(self, ids: Seq<Seq<char>>) -> bool {
        &&& self.names.len() == ids.len()
        &&& self.places.len() == ids.len()
        &&& in_order(self.names)
        &&& forall|i: int|
            0 <= i < ids.len() ==> (#[trigger] self.places[i]) < ids.len() && self.names[i]
                == ids[self.places[i] as int]
        &&& forall|k: int| 0 <= k < ids.len() ==> self.names.contains(#[trigger] ids[k])
        &&& self.names.contains(self.default_provider)
    }
}

/// The first of `ids` that another before it equals, from `from` on.
pub open spec fn first_repeated(ids: Seq<Seq<char>>, from: nat) -> Option<Seq<char>>
    decreases ids.len() - from,
{
    if from >= ids.len() {
        None
    } else if ids.take(from as int).contains(ids[from as int]) {
        Some(ids[from as int])
    } else {
        first_repeated(ids, from + 1)
    }
}

/// Why providers make no registry.
pub open spec fn fault(default_provider: Seq<char>, ids: Seq<Seq<char>>) -> Option<RegistryFault> {
    match first_repeated(ids, 0) {
        Some(id) => Some(RegistryFault::Duplicate(id)),
        None => if ids.len() == 0 {
            Some(RegistryFault::Empty)
        } else if !ids.contains(default_provider) {
            Some(RegistryFault::MissingDefault(default_provider))
        } else {
            None
        },
    }
}

/// Where a name belongs among names in order: its place, and whether it is
/// there.
fn find(names: &Vec<String>, id: &str) -> (found: (usize, bool))
    requires
        in_order(views(names@)),
    ensures
        found.0 <= names.len(),
        found.1 == views(names@).contains(id@),
        found.1 ==> found.0 < names.len() && names[found.0 as int]@ == id@,
        forall|i: int| 0 <= i < found.0 ==> text_before(#[trigger] views(names@)[i], id@),
        !found.1 ==> forall|i: int|
            found.0 <= i < names.len() ==> text_before(id@, #[trigger] views(names@)[i]),
{
    let ghost all = views(names@);
    let mut i: usize = 0;
    while i < names.len() && is_before(names[i].as_str(), id)
        invariant
            i <= names.len(),
            all == views(names@),
            in_order(all),
            forall|k: int| 0 <= k < i ==> text_before(#[trigger] all[k], id@),
        decreases names.len() - i,
    {
        i += 1;
    }
    proof {
        assert forall|k: int| 0 <= k < i implies all[k] != id@ by {
            crate::order::law_text_order_is_total(all[k], id@);
        }
    }
    if i < names.len() && same_text(names[i].as_str(), id) {
        assert(all[i as int] == id@);
        return (i, true);
    }
    proof {
        assert forall|k: int| i <= k < all.len() implies text_before(
            id@,
            #[trigger] all[k],
        ) by {
            crate::order::law_text_order_is_total(all[i as int], id@);
            if k > i {
                crate::order::law_text_order_is_transitive(id@, all[i as int], all[k]);
            }
        }
        assert forall|k: int| 0 <= k < all.len() implies all[k] != id@ by {
            if k >= i {
                crate::order::law_text_order_is_total(all[k], id@);
            }
        }
    }
    (i, false)
}

impl ProviderRegistry {
    #[verifier::type_invariant]
    spec fn paired(self) -> bool {
        self.names.len() == self.places.len()
    }

    /// The registry of the providers called `ids`.
    pub fn new(default_provider: &str, ids: &Vec<String>) -> (result: Result<Self, RegistryError>)
        ensures
            match fault(default_provider@, views(ids@)) {
                Some(fault) => result matches Err(error) && error@ == fault,
                None => result matches Ok(registry) && registry@.holds(views(ids@))
                    && registry@.default_provider == default_provider@,
            },
    {
        let ghost all = views(ids@);
        let mut names: Vec<String> = Vec::new();
        let mut places: Vec<usize> = Vec::new();
        let mut k: usize = 0;
        while k < ids.len()
            invariant
                k <= ids.len(),
                all == views(ids@),
                names.len() == k,
                places.len() == k,
                in_order(views(names@)),
                forall|i: int|
                    0 <= i < k ==> (#[trigger] places[i]) < k && views(names@)[i]
                        == all[places[i] as int],
                forall|i: int| 0 <= i < k ==> views(names@).contains(#[trigger] all[i]),
                first_repeated(all, 0) == first_repeated(all, k as nat),
            decreases ids.len() - k,
        {
            let id = ids[k].as_str();
            assert(all[k as int] == id@);
            let (at, found) = find(&names, id);
            if found {
                proof {
                    let j = places[at as int];
                    assert(views(names@)[at as int] == id@);
                    assert(all.take(k as int)[j as int] == id@);
                }
                return Err(RegistryError::Duplicate(id.to_owned()));
            }
            let ghost before = views(names@);
            let ghost before_places = places@;
            proof {
                if all.take(k as int).contains(id@) {
                    let j = choose|j: int| 0 <= j < k && all.take(k as int)[j] == id@;
                    assert(before.contains(all[j]));
                }
            }
            names.insert(at, id.to_owned());
            places.insert(at, k);
            proof {
                let after = views(names@);
                assert(after =~= before.insert(at as int, id@));
                assert(places@ =~= before_places.insert(at as int, k));
                assert forall|i: int, j: int| 0 <= i < j < after.len() implies text_before(
                    #[trigger] after[i],
                    #[trigger] after[j],
                ) by {
                    let left = if i < at {
                        i
                    } else {
                        i - 1
                    };
                    let right = if j < at {
                        j
                    } else {
                        j - 1
                    };
                    if i != at {
                        assert(after[i] == before[left]);
                    }
                    if j != at {
                        assert(after[j] == before[right]);
                    }
                }
                assert forall|i: int| 0 <= i < k + 1 implies (#[trigger] places[i]) < k + 1
                    && after[i] == all[places[i] as int] by {
                    if i < at {
                        assert(places[i] == before_places[i]);
                        assert(after[i] == before[i]);
                    } else if i > at {
                        assert(places[i] == before_places[i - 1]);
                        assert(after[i] == before[i - 1]);
                    }
                }
                assert forall|i: int| 0 <= i < k + 1 implies after.contains(
                    #[trigger] all[i],
                ) by {
                    if i < k {
                        assert(before.contains(all[i]));
                        let p = choose|p: int| 0 <= p < before.len() && before[p] == all[i];
                        if p < at {
                            assert(after[p] == all[i]);
                        } else {
                            assert(after[p + 1] == all[i]);
                        }
                    } else {
                        assert(after[at as int] == all[i]);
                    }
                }
            }
            k += 1;
        }
        if ids.len() == 0 {
            return Err(RegistryError::Empty);
        }
        let (at, found) = find(&names, default_provider);
        proof {
            if found {
                assert(views(names@)[at as int] == default_provider@);
                assert(all[places[at as int] as int] == default_provider@);
            }
            if all.contains(default_provider@) {
                let p = choose|p: int| 0 <= p < all.len() && all[p] == default_provider@;
                assert(views(names@).contains(all[p]));
            }
        }
        if !found {
            return Err(RegistryError::MissingDefault(default_provider.to_owned()));
        }
        Ok(ProviderRegistry { default_provider: default_provider.to_owned(), names, places })
    }

    /// The name of the default provider.
    pub fn default_provider(&self) -> (name: &str)
        ensures
            name@ == self@.default_provider,
    {
        self.default_provider.as_str()
    }

    /// The place of a provider among those that were handed in.
    pub fn get(&self, id: &str) -> (result: Result<usize, String>)
        ensures
            match result {
                Ok(place) => exists|i: int|
                    0 <= i < self@.names.len() && #[trigger] self@.names[i] == id@
                        && self@.places[i] == place,
                Err(message) => !self@.names.contains(id@) && message@
                    == "unknown model provider "@ + id@,
            },
    {
        proof {
            use_type_invariant(self);
        }
        let ghost all = views(self.names@);
        let mut i: usize = 0;
        while i < self.names.len()
            invariant
                i <= self.names.len(),
                self.names.len() == self.places.len(),
                all == views(self.names@),
                forall|k: int| 0 <= k < i ==> #[trigger] all[k] != id@,
            decreases self.names.len() - i,
        {
            assert(all[i as int] == self.names[i as int]@);
            if same_text(self.names[i].as_str(), id) {
                assert(self@.names[i as int] == id@);
                return Ok(self.places[i]);
            }
            i += 1;
        }
        Err(concat2("unknown model provider ", id))
    }

    /// The places of the providers, in the order of their names.
    pub fn places(&self) -> (places: &Vec<usize>)
        ensures
            places@ == self@.places,
    {
        &self.places
    }

    /// How many providers there are.
    pub fn len(&self) -> (count: usize)
        ensures
            count == self@.names.len(),
    {
        self.names.len()
    }
}

/// Every provider that was handed in is found in its registry, at its place.
pub proof fn law_registered_provider_is_found(registry: RegistryView, ids: Seq<Seq<char>>, k: int)
    requires
        registry.holds(ids),
        first_repeated(ids, 0) is None,
        0 <= k < ids.len(),
    ensures
        exists|i: int|
            0 <= i < registry.names.len() && #[trigger] registry.names[i] == ids[k]
                && registry.places[i] == k,
{
    assert(registry.names.contains(ids[k]));
    let i = choose|i: int| 0 <= i < registry.names.len() && registry.names[i] == ids[k];
    let p = registry.places[i] as int;
    assert(ids[p] == ids[k]);
    if p < k {
        lemma_no_repeat(ids, 0, p, k);
    } else if k < p {
        lemma_no_repeat(ids, 0, k, p);
    }
    assert(registry.names[i] == ids[k]);
}

proof fn lemma_no_repeat(ids: Seq<Seq<char>>, from: nat, i: int, j: int)
    requires
        first_repeated(ids, from) is None,
        0 <= i < j < ids.len(),
        from <= j,
    ensures
        ids[i] != ids[j],
    decreases ids.len() - from,
{
    if from == j {
        if ids[i] == ids[j] {
            assert(ids.take(j)[i] == ids[j]);
        }
    } else {
        lemma_no_repeat(ids, from + 1, i, j);
    }
}

/// Providers make a registry where none is named twice and the default is among them;
/// else it is told what is wrong, a name that is there twice before the rest.
pub proof fn law_registry_names_each_provider_once(
    default_provider: Seq<char>,
    ids: Seq<Seq<char>>,
)
    ensures
        ({
            let fault = fault(default_provider, ids);
            &&& fault is None <==> ids.no_duplicates() && ids.contains(default_provider)
            &&& fault is Some && fault->0 is Duplicate <==> !ids.no_duplicates()
            &&& fault is Some && fault->0 is Empty <==> ids.len() == 0
            &&& fault is Some && fault->0 is MissingDefault <==> ids.len() > 0
                && ids.no_duplicates() && !ids.contains(default_provider)
            &&& fault matches Some(RegistryFault::Duplicate(id)) ==> ids.contains(id)
            &&& fault matches Some(RegistryFault::MissingDefault(id)) ==> id == default_provider
        }),
{
    lemma_first_repeated(ids, 0);
}

proof fn lemma_first_repeated(ids: Seq<Seq<char>>, from: nat)
    requires
        from <= ids.len(),
        ids.take(from as int).no_duplicates(),
    ensures
        first_repeated(ids, from) is None <==> ids.no_duplicates(),
        first_repeated(ids, from) matches Some(id) ==> ids.contains(id),
    decreases ids.len() - from,
{
    if from >= ids.len() {
        assert(ids.take(from as int) =~= ids);
    } else if ids.take(from as int).contains(ids[from as int]) {
        let seen = ids.take(from as int);
        let k = choose|k: int| 0 <= k < seen.len() && seen[k] == ids[from as int];
        assert(ids[k] == ids[from as int]);
    } else {
        let seen = ids.take(from as int);
        let next = ids.take((from + 1) as int);
        assert forall|i: int, j: int| 0 <= i < next.len() && 0 <= j < next.len() && i
            != j implies next[i] != next[j] by {
            if i < from && j < from {
                assert(seen[i] != seen[j]);
            } else if i < from {
                assert(seen[i] == ids[i]);
                assert(seen.contains(seen[i]));
            } else if j < from {
                assert(seen[j] == ids[j]);
                assert(seen.contains(seen[j]));
            }
        }
        lemma_first_repeated(ids, from + 1);
    }
}

/// A fault is told with the name that it is about.
pub proof fn law_fault_names_its_provider(id: Seq<char>)
    ensures
        crate::text::has_suffix(RegistryFault::Duplicate(id).words(), id),
        crate::text::holds_part(RegistryFault::MissingDefault(id).words(), id),
{
    let told = RegistryFault::Duplicate(id).words();
    assert(told.skip(told.len() - id.len()) =~= id);
    crate::text::lemma_holds_middle("default model provider "@, id, " is not registered"@);
}

/// What a registry does not know it refuses by name, and only that.
pub proof fn law_unknown_provider_is_refused(
    registry: ProviderRegistry,
    id: &str,
    result: Result<usize, String>,
)
    requires
        call_ensures(ProviderRegistry::get, (&registry, id), result),
    ensures
        result is Ok <==> registry@.names.contains(id@),
        result matches Err(message) ==> crate::text::has_suffix(message@, id@),
{
    if let Err(message) = result {
        assert(message@.skip(message@.len() - id@.len()) =~= id@);
    }
}

} // verus!
