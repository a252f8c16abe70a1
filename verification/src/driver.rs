//! Device discovery over a class directory listing, and the per-device cache
//! of attribute handles.

use vstd::prelude::*;
use vstd::hash_map::StringHashMap;
use vstd::string::*;
use crate::attribute::{attribute_path_text, class_path, class_path_text, Attribute};
use crate::error::{texts, ErrorModel, Ev3Error, Ev3Result, IoFault};
use crate::text::list_holds;

verus! {

/// What listing one entry of a class directory gave: the entry's name and the
/// content of its `address` and `driver_name` attributes, each either read or
/// failed.
#[derive(Debug, PartialEq, Eq)]
pub struct DirEntry {
    pub name: Result<String, IoFault>,
    pub address: Result<String, IoFault>,
    pub driver_name: Result<String, IoFault>,
}

/// The mathematical value of a `DirEntry`.
pub struct EntryModel {
    pub name: Result<Seq<char>, IoFault>,
    pub address: Result<Seq<char>, IoFault>,
    pub driver_name: Result<Seq<char>, IoFault>,
}

/// The text that a read gave, or its failure.
pub open spec fn read_text(r: Result<String, IoFault>) -> Result<Seq<char>, IoFault> {
    match r {
        Ok(s) => Ok(s@),
        Err(f) => Err(f),
    }
}

impl View for DirEntry {
    type V = EntryModel;

    open spec fn view(&self) -> EntryModel {
        EntryModel {
            name: read_text(self.name),
            address: read_text(self.address),
            driver_name: read_text(self.driver_name),
        }
    }
}

/// The mathematical values of a listing's entries, in listing order.
pub open spec fn entries(listing: Seq<DirEntry>) -> Seq<EntryModel> {
    Seq::new(listing.len(), |i: int| listing[i]@)
}

/// The mathematical value of a discovery result that names one instance.
pub open spec fn name_result(r: Ev3Result<String>) -> Result<Seq<char>, ErrorModel> {
    match r {
        Ok(s) => Ok(s@),
        Err(e) => Err(e@),
    }
}

/// The mathematical value of a discovery result that names several instances.
pub open spec fn names_result(r: Ev3Result<Vec<String>>) -> Result<Seq<Seq<char>>, ErrorModel> {
    match r {
        Ok(v) => Ok(texts(v@)),
        Err(e) => Err(e@),
    }
}

/// The text under which a list of driver identifiers appears in an error:
/// what `Debug` prints for the list.
pub uninterp spec fn id_list_text(ids: Seq<Seq<char>>) -> Seq<char>;

/// Whether `needle` occurs in `hay` as a contiguous run of characters.
pub open spec fn is_substring(needle: Seq<char>, hay: Seq<char>) -> bool {
    exists|i: int|
        0 <= i && i + needle.len() <= hay.len() && #[trigger] hay.subrange(i, i + needle.len())
            == needle
}

/// What one entry says to a search by driver identifier: `Ok(Some(name))` if
/// it matches, `Ok(None)` if it does not, the failure if it could not be read.
pub open spec fn probe_by_driver(root: Seq<char>, class_name: Seq<char>, e: EntryModel, ids: Seq<Seq<char>>) -> Result<
    Option<Seq<char>>,
    ErrorModel,
> {
    match e.name {
        Err(f) => Err(ErrorModel::Io { fault: f, subject: class_path_text(root, class_name) }),
        Ok(n) => match e.driver_name {
            Err(f) => Err(
                ErrorModel::Io {
                    fault: f,
                    subject: attribute_path_text(root, class_name, n, "driver_name"@),
                },
            ),
            Ok(d) => if ids.contains(d) {
                Ok(Some(n))
            } else {
                Ok(None)
            },
        },
    }
}

/// What one entry says to a search by port and driver identifier. The
/// `driver_name` attribute counts only where the address holds the port's.
pub open spec fn probe_by_port(
    root: Seq<char>,
    class_name: Seq<char>,
    e: EntryModel,
    port: Seq<char>,
    ids: Seq<Seq<char>>,
) -> Result<Option<Seq<char>>, ErrorModel> {
    match e.name {
        Err(f) => Err(ErrorModel::Io { fault: f, subject: class_path_text(root, class_name) }),
        Ok(n) => match e.address {
            Err(f) => Err(
                ErrorModel::Io { fault: f, subject: attribute_path_text(root, class_name, n, "address"@) },
            ),
            Ok(a) => if is_substring(port, a) {
                probe_by_driver(root, class_name, e, ids)
            } else {
                Ok(None)
            },
        },
    }
}

/// The names of all entries that match one of `ids`, in listing order, or the
/// failure of the first entry that could not be read.
pub open spec fn names_by_driver(
    root: Seq<char>,
    class_name: Seq<char>,
    listing: Seq<EntryModel>,
    ids: Seq<Seq<char>>,
) -> Result<Seq<Seq<char>>, ErrorModel>
    decreases listing.len(),
{
    if listing.len() == 0 {
        Ok(Seq::empty())
    } else {
        match names_by_driver(root, class_name, listing.drop_last(), ids) {
            Err(e) => Err(e),
            Ok(found) => match probe_by_driver(root, class_name, listing.last(), ids) {
                Err(e) => Err(e),
                Ok(Some(n)) => Ok(found.push(n)),
                Ok(None) => Ok(found),
            },
        }
    }
}

/// The rule for a search that wants exactly one instance.
pub open spec fn single_name(found: Seq<Seq<char>>, ids: Seq<Seq<char>>) -> Result<
    Seq<char>,
    ErrorModel,
> {
    if found.len() == 0 {
        Err(ErrorModel::NotConnected { device: id_list_text(ids), port: None })
    } else if found.len() == 1 {
        Ok(found[0])
    } else {
        Err(ErrorModel::MultipleMatches { device: id_list_text(ids), ports: found })
    }
}

/// The one instance that matches one of `ids`.
pub open spec fn name_by_driver(
    root: Seq<char>,
    class_name: Seq<char>,
    listing: Seq<EntryModel>,
    ids: Seq<Seq<char>>,
) -> Result<Seq<char>, ErrorModel> {
    match names_by_driver(root, class_name, listing, ids) {
        Err(e) => Err(e),
        Ok(found) => single_name(found, ids),
    }
}

/// The first entry from index `from` on that sits at `port` and matches one of
/// `ids`, or the failure of an earlier entry that could not be read.
pub open spec fn name_by_port_from(
    root: Seq<char>,
    class_name: Seq<char>,
    listing: Seq<EntryModel>,
    port: Seq<char>,
    ids: Seq<Seq<char>>,
    from: int,
) -> Result<Seq<char>, ErrorModel>
    decreases listing.len() - from,
{
    if from < 0 || from >= listing.len() {
        Err(ErrorModel::NotConnected { device: id_list_text(ids), port: Some(port) })
    } else {
        match probe_by_port(root, class_name, listing[from], port, ids) {
            Err(e) => Err(e),
            Ok(Some(n)) => Ok(n),
            Ok(None) => name_by_port_from(root, class_name, listing, port, ids, from + 1),
        }
    }
}

/// The first instance at `port` that matches one of `ids`.
pub open spec fn name_by_port_and_driver(
    root: Seq<char>,
    class_name: Seq<char>,
    listing: Seq<EntryModel>,
    port: Seq<char>,
    ids: Seq<Seq<char>>,
) -> Result<Seq<char>, ErrorModel> {
    name_by_port_from(root, class_name, listing, port, ids, 0)
}

/// `str::contains` with a string pattern: whether the pattern occurs in the
/// text as a contiguous run of characters.
#[verifier::external_body]
fn text_contains(hay: &str, needle: &str) -> (found: bool)
    ensures
        found == is_substring(needle@, hay@),
{
    hay.contains(needle)
}

/// `Debug` formatting of a list of strings. The contract only gives the
/// printed text its name: the same list always prints the same.
#[verifier::external_body]
fn describe_ids(ids: &Vec<String>) -> (printed: String)
    ensures
        printed@ == id_list_text(texts(ids@)),
{
    format!("{:?}", ids)
}

/// The mathematical value of what a probe of one entry gave.
pub open spec fn probe_result(r: Ev3Result<Option<String>>) -> Result<Option<Seq<char>>, ErrorModel> {
    match r {
        Ok(Some(n)) => Ok(Some(n@)),
        Ok(None) => Ok(None),
        Err(e) => Err(e@),
    }
}

/// Asks one entry whether its driver is one of `ids`.
pub fn match_driver(root: &str, class_name: &str, entry: &DirEntry, ids: &Vec<String>) -> (r: Ev3Result<
    Option<String>,
>)
    ensures
        probe_result(r) == probe_by_driver(root@, class_name@, entry@, texts(ids@)),
{
    match &entry.name {
        Err(f) => Err(Ev3Error::Io { fault: *f, subject: class_path(root, class_name) }),
        Ok(n) => match &entry.driver_name {
            Err(f) => {
                let handle = Attribute::from_sys_class(root, class_name, n.as_str(), "driver_name");
                Err(Ev3Error::Io { fault: *f, subject: handle.path().clone() })
            },
            Ok(d) => if list_holds(ids, d) {
                Ok(Some(n.clone()))
            } else {
                Ok(None)
            },
        },
    }
}

/// Asks one entry whether it sits at the port and its driver is one of `ids`.
pub fn match_port_and_driver(
    root: &str,
    class_name: &str,
    entry: &DirEntry,
    port_address: &str,
    ids: &Vec<String>,
) -> (r: Ev3Result<Option<String>>)
    ensures
        probe_result(r) == probe_by_port(root@, class_name@, entry@, port_address@, texts(ids@)),
{
    match &entry.name {
        Err(f) => Err(Ev3Error::Io { fault: *f, subject: class_path(root, class_name) }),
        Ok(n) => match &entry.address {
            Err(f) => {
                let handle = Attribute::from_sys_class(root, class_name, n.as_str(), "address");
                Err(Ev3Error::Io { fault: *f, subject: handle.path().clone() })
            },
            Ok(a) => if text_contains(a.as_str(), port_address) {
                match_driver(root, class_name, entry, ids)
            } else {
                Ok(None)
            },
        },
    }
}

/// Applies the rule for a search that wants exactly one instance to the
/// instances found.
pub fn select_single(mut names: Vec<String>, ids: &Vec<String>) -> (r: Ev3Result<String>)
    ensures
        name_result(r) == single_name(texts(names@), texts(ids@)),
{
    let ghost found = names@;
    match names.pop() {
        None => Err(Ev3Error::NotConnected { device: describe_ids(ids), port: None }),
        Some(last) => {
            if names.len() == 0 {
                assert(last == found[0]);
                Ok(last)
            } else {
                names.push(last);
                assert(names@ =~= found);
                Err(Ev3Error::MultipleMatches { device: describe_ids(ids), ports: names })
            }
        },
    }
}

/// One logical device: its class, its instance name, and the handles of the
/// attributes that were asked for so far.
pub struct Driver {
    root: String,
    class_name: String,
    name: String,
    attributes: StringHashMap<Attribute>,
}

impl Driver {
    /// The directory below which the device's class directory stands.
    pub closed spec fn root_text(&self) -> Seq<char> {
        self.root@
    }

    /// The device's class.
    pub closed spec fn class_text(&self) -> Seq<char> {
        self.class_name@
    }

    /// The device's instance name.
    pub closed spec fn name_text(&self) -> Seq<char> {
        self.name@
    }

    /// The names of the attributes whose handles are cached.
    pub closed spec fn cached_names(&self) -> Set<Seq<char>> {
        self.attributes@.dom()
    }

    /// Whether the handle of `attribute_name` is cached.
    pub open spec fn is_cached(&self, attribute_name: Seq<char>) -> bool {
        self.cached_names().contains(attribute_name)
    }

    /// The path that every handle of `attribute_name` of this device is bound to.
    pub open spec fn path_of(&self, attribute_name: Seq<char>) -> Seq<char> {
        attribute_path_text(
            self.root_text(),
            self.class_text(),
            self.name_text(),
            attribute_name,
        )
    }

    /// The cache holds finitely many handles, one per attribute name, each
    /// bound to the path of that attribute of this device.
    pub closed spec fn well_formed(&self) -> bool {
        &&& self.attributes@.dom().finite()
        &&& forall|k: Seq<char>|
            self.attributes@.contains_key(k) ==> (#[trigger] self.attributes@[k])@
                == attribute_path_text(self.root@, self.class_name@, self.name@, k)
    }

    /// A driver for the device `name` of class `class_name` below the
    /// directory `root`, with an empty cache.
    pub fn new(root: &str, class_name: &str, name: &str) -> (driver: Driver)
        ensures
            driver.well_formed(),
            driver.root_text() == root@,
            driver.class_text() == class_name@,
            driver.name_text() == name@,
            driver.cached_names() == Set::<Seq<char>>::empty(),
    {
        let driver = Driver {
            root: root.to_owned(),
            class_name: class_name.to_owned(),
            name: name.to_owned(),
            attributes: StringHashMap::new(),
        };
        assert(driver.cached_names() =~= Set::<Seq<char>>::empty());
        driver
    }

    /// The directory below which the device's class directory stands.
    pub fn root(&self) -> (root: &String)
        ensures
            root@ == self.root_text(),
    {
        &self.root
    }

    /// The device's class.
    pub fn class_name(&self) -> (class_name: &String)
        ensures
            class_name@ == self.class_text(),
    {
        &self.class_name
    }

    /// The device's instance name.
    pub fn name(&self) -> (name: &String)
        ensures
            name@ == self.name_text(),
    {
        &self.name
    }

    /// What the driver is called in messages: its class and instance name.
    pub fn describe(&self) -> (line: String)
        ensures
            line@ == "Driver { class_name: "@ + self.class_text() + ", name: "@ + self.name_text()
                + " }"@,
    {
        let mut line = String::from_str("Driver { class_name: ");
        line.append(self.class_name.as_str());
        line.append(", name: ");
        line.append(self.name.as_str());
        line.append(" }");
        line
    }

    /// How many attributes were resolved so far.
    pub fn resolved_count(&self) -> (count: usize)
        ensures
            count == self.cached_names().len(),
    {
        self.attributes.len()
    }

    /// The first instance in `listing` whose address holds `port_address` and
    /// whose driver is one of `driver_name_vec`.
    ///
    /// The address need only hold the port's address somewhere, so `in1`
    /// also finds a device whose address ends in `in10`.
    pub fn find_name_by_port_and_driver(
        root: &str,
        class_name: &str,
        listing: &Vec<DirEntry>,
        port_address: &str,
        driver_name_vec: &Vec<String>,
    ) -> (r: Ev3Result<String>)
        ensures
            name_result(r) == name_by_port_and_driver(
                root@,
                class_name@,
                entries(listing@),
                port_address@,
                texts(driver_name_vec@),
            ),
    {
        let ghost all = entries(listing@);
        let ghost ids = texts(driver_name_vec@);
        let mut i: usize = 0;
        while i < listing.len()
            invariant
                i <= listing@.len(),
                all == entries(listing@),
                ids == texts(driver_name_vec@),
                name_by_port_and_driver(root@, class_name@, all, port_address@, ids) == name_by_port_from(
                    root@,
                    class_name@,
                    all,
                    port_address@,
                    ids,
                    i as int,
                ),
            decreases listing@.len() - i,
        {
            let probe = match_port_and_driver(root, class_name, &listing[i], port_address, driver_name_vec);
            assert(all[i as int] == listing@[i as int]@);
            match probe {
                Err(e) => {
                    return Err(e);
                },
                Ok(Some(n)) => {
                    return Ok(n);
                },
                Ok(None) => {},
            }
            i += 1;
        }
        Err(Ev3Error::NotConnected {
            device: describe_ids(driver_name_vec),
            port: Some(port_address.to_owned()),
        })
    }

    /// The one instance in `listing` whose driver is one of `driver_name_vec`.
    pub fn find_name_by_driver(
        root: &str,
        class_name: &str,
        listing: &Vec<DirEntry>,
        driver_name_vec: &Vec<String>,
    ) -> (r: Ev3Result<String>)
        ensures
            name_result(r) == name_by_driver(
                root@,
                class_name@,
                entries(listing@),
                texts(driver_name_vec@),
            ),
    {
        match Driver::find_names_by_driver(root, class_name, listing, driver_name_vec) {
            Err(e) => Err(e),
            Ok(names) => select_single(names, driver_name_vec),
        }
    }

    /// All instances in `listing` whose driver is one of `driver_name_vec`,
    /// in listing order.
    pub fn find_names_by_driver(
        root: &str,
        class_name: &str,
        listing: &Vec<DirEntry>,
        driver_name_vec: &Vec<String>,
    ) -> (r: Ev3Result<Vec<String>>)
        ensures
            names_result(r) == names_by_driver(
                root@,
                class_name@,
                entries(listing@),
                texts(driver_name_vec@),
            ),
    {
        let ghost all = entries(listing@);
        let ghost ids = texts(driver_name_vec@);
        let mut found_names: Vec<String> = Vec::new();
        let mut i: usize = 0;
        assert(all.take(0) =~= Seq::<EntryModel>::empty());
        assert(texts(found_names@) =~= Seq::<Seq<char>>::empty());
        while i < listing.len()
            invariant
                i <= listing@.len(),
                all == entries(listing@),
                ids == texts(driver_name_vec@),
                names_by_driver(root@, class_name@, all.take(i as int), ids) == Ok::<
                    Seq<Seq<char>>,
                    ErrorModel,
                >(texts(found_names@)),
            decreases listing@.len() - i,
        {
            let probe = match_driver(root, class_name, &listing[i], driver_name_vec);
            proof {
                let next = all.take(i + 1);
                assert(next.drop_last() =~= all.take(i as int));
                assert(next.last() == listing@[i as int]@);
                if i + 1 == listing@.len() {
                    assert(next =~= all);
                }
            }
            let ghost before = found_names@;
            match probe {
                Err(e) => {
                    proof {
                        lemma_failure_stays(root@, class_name@, all, ids, i + 1);
                    }
                    return Err(e);
                },
                Ok(Some(n)) => {
                    found_names.push(n);
                    assert(texts(found_names@) =~= texts(before).push(n@));
                },
                Ok(None) => {},
            }
            i += 1;
        }
        assert(all.take(i as int) =~= all);
        Ok(found_names)
    }

    /// The cached handle of `attribute_name`, if it was resolved before.
    pub fn cached(&self, attribute_name: &str) -> (hit: Option<Attribute>)
        requires
            self.well_formed(),
        ensures
            hit.is_some() == self.is_cached(attribute_name@),
            hit.is_some() ==> hit.unwrap()@ == self.path_of(attribute_name@),
    {
        match self.attributes.get(attribute_name) {
            Some(handle) => Some(handle.clone()),
            None => None,
        }
    }

    /// A new handle of `attribute_name`, bound to the attribute's file. The
    /// cache is neither asked nor changed.
    pub fn resolve(&self, attribute_name: &str) -> (handle: Attribute)
        ensures
            handle@ == self.path_of(attribute_name@),
    {
        Attribute::from_sys_class(
            self.root.as_str(),
            self.class_name.as_str(),
            self.name.as_str(),
            attribute_name,
        )
    }

    /// The handle of `attribute_name`: the cached one, or a new one that is
    /// cached from now on. Nothing ever leaves the cache.
    pub fn get_attribute(&mut self, attribute_name: &str) -> (handle: Attribute)
        requires
            old(self).well_formed(),
        ensures
            final(self).well_formed(),
            final(self).root_text() == old(self).root_text(),
            final(self).class_text() == old(self).class_text(),
            final(self).name_text() == old(self).name_text(),
            handle@ == old(self).path_of(attribute_name@),
            final(self).cached_names() == after_lookup(old(self).cached_names(), attribute_name@),
            old(self).is_cached(attribute_name@) ==> *final(self) == *old(self),
    {
        match self.cached(attribute_name) {
            Some(handle) => handle,
            None => {
                let handle = self.resolve(attribute_name);
                self.attributes.insert(attribute_name.to_owned(), handle.clone());
                assert(self.cached_names() =~= old(self).cached_names().insert(attribute_name@));
                handle
            },
        }
    }

    /// The handle of `attribute_name` where its file was reached, as
    /// `get_attribute` gives it. Where the file was not reached there is no
    /// handle, and the driver stays as it is: a failure is never cached.
    pub fn get_attribute_if_reached(&mut self, attribute_name: &str, reached: bool) -> (r: Option<
        Attribute,
    >)
        requires
            old(self).well_formed(),
        ensures
            final(self).well_formed(),
            !reached ==> r is None && *final(self) == *old(self),
            reached ==> {
                &&& r is Some
                &&& r->Some_0@ == old(self).path_of(attribute_name@)
                &&& final(self).root_text() == old(self).root_text()
                &&& final(self).class_text() == old(self).class_text()
                &&& final(self).name_text() == old(self).name_text()
                &&& final(self).cached_names() == after_lookup(
                    old(self).cached_names(),
                    attribute_name@,
                )
            },
    {
        if reached {
            Some(self.get_attribute(attribute_name))
        } else {
            None
        }
    }
}

/// The cached names after the handle of `attribute_name` was asked for: the
/// name is among them, and so is every name that was.
pub open spec fn after_lookup(cached: Set<Seq<char>>, attribute_name: Seq<char>) -> Set<Seq<char>> {
    cached.insert(attribute_name)
}

/// The cached names after the handles of `asked` were asked for, one after
/// the other.
pub open spec fn after_lookups(cached: Set<Seq<char>>, asked: Seq<Seq<char>>) -> Set<Seq<char>>
    decreases asked.len(),
{
    if asked.len() == 0 {
        cached
    } else {
        after_lookup(after_lookups(cached, asked.drop_last()), asked.last())
    }
}

/// Once an entry of a listing has failed, the search over any longer part of
/// the listing fails in the same way.
pub proof fn lemma_failure_stays(
    root: Seq<char>,
    class_name: Seq<char>,
    listing: Seq<EntryModel>,
    ids: Seq<Seq<char>>,
    upto: int,
)
    requires
        0 <= upto <= listing.len(),
        names_by_driver(root, class_name, listing.take(upto), ids) is Err,
    ensures
        names_by_driver(root, class_name, listing, ids) == names_by_driver(
            root,
            class_name,
            listing.take(upto),
            ids,
        ),
    decreases listing.len() - upto,
{
    if upto == listing.len() {
        assert(listing.take(upto) =~= listing);
    } else {
        let next = listing.take(upto + 1);
        assert(next.drop_last() =~= listing.take(upto));
        lemma_failure_stays(root, class_name, listing, ids, upto + 1);
    }
}

/// Cache coherence. Once the handle of an attribute was asked for, the
/// attribute is cached and stays so whatever is asked for afterwards, as
/// does all that was cached; and asking for the attribute again resolves
/// nothing more: the cached names stay as they are, in number too. Every
/// handle of the attribute is bound to the one path that `Driver::path_of`
/// gives for it.
pub proof fn lemma_cache_coherence(
    cached: Set<Seq<char>>,
    attribute_name: Seq<char>,
    asked: Seq<Seq<char>>,
)
    requires
        cached.finite(),
    ensures
        after_lookups(after_lookup(cached, attribute_name), asked).contains(attribute_name),
        after_lookup(after_lookups(after_lookup(cached, attribute_name), asked), attribute_name)
            == after_lookups(after_lookup(cached, attribute_name), asked),
        after_lookup(cached, attribute_name).subset_of(
            after_lookups(after_lookup(cached, attribute_name), asked),
        ),
        after_lookups(after_lookup(cached, attribute_name), asked).finite(),
        after_lookup(after_lookups(after_lookup(cached, attribute_name), asked), attribute_name).len()
            == after_lookups(after_lookup(cached, attribute_name), asked).len(),
    decreases asked.len(),
{
    let first = after_lookup(cached, attribute_name);
    let later = after_lookups(first, asked);
    if asked.len() > 0 {
        lemma_cache_coherence(cached, attribute_name, asked.drop_last());
    }
    assert(later.insert(attribute_name) =~= later);
}

/// Where exactly two instances are listed, both readable and both with the
/// driver `id`, the search for the one instance of that driver fails with
/// `MultipleMatches`, carrying the two instance names in listing order.
pub proof fn lemma_two_matches_are_ambiguous(
    root: Seq<char>,
    class_name: Seq<char>,
    first: EntryModel,
    second: EntryModel,
    id: Seq<char>,
)
    requires
        first.name is Ok,
        second.name is Ok,
        first.driver_name == Ok::<Seq<char>, IoFault>(id),
        second.driver_name == Ok::<Seq<char>, IoFault>(id),
    ensures
        name_by_driver(root, class_name, seq![first, second], seq![id]) == Err::<Seq<char>, ErrorModel>(
            ErrorModel::MultipleMatches {
                device: id_list_text(seq![id]),
                ports: seq![first.name->Ok_0, second.name->Ok_0],
            },
        ),
{
    let ids = seq![id];
    let both = seq![first, second];
    let one = seq![first];
    assert(ids[0] == id);
    assert(both.drop_last() =~= one);
    assert(one.drop_last() =~= Seq::<EntryModel>::empty());
    assert(names_by_driver(root, class_name, one.drop_last(), ids) == Ok::<Seq<Seq<char>>, ErrorModel>(
        Seq::empty(),
    ));
    assert(names_by_driver(root, class_name, one, ids) == Ok::<Seq<Seq<char>>, ErrorModel>(
        Seq::<Seq<char>>::empty().push(first.name->Ok_0),
    ));
    assert(Seq::<Seq<char>>::empty().push(first.name->Ok_0).push(second.name->Ok_0)
        =~= seq![first.name->Ok_0, second.name->Ok_0]);
}

/// Where every listed instance is readable and none has a driver among
/// `ids`, the search by driver finds nothing, and the search for the one
/// instance fails with `NotConnected` and no port.
pub proof fn lemma_no_match_is_not_connected(
    root: Seq<char>,
    class_name: Seq<char>,
    listing: Seq<EntryModel>,
    ids: Seq<Seq<char>>,
)
    requires
        forall|i: int|
            0 <= i < listing.len() ==> {
                &&& (#[trigger] listing[i]).name is Ok
                &&& listing[i].driver_name is Ok
                &&& !ids.contains(listing[i].driver_name->Ok_0)
            },
    ensures
        names_by_driver(root, class_name, listing, ids) == Ok::<Seq<Seq<char>>, ErrorModel>(
            Seq::empty(),
        ),
        name_by_driver(root, class_name, listing, ids) == Err::<Seq<char>, ErrorModel>(
            ErrorModel::NotConnected { device: id_list_text(ids), port: None },
        ),
    decreases listing.len(),
{
    if listing.len() > 0 {
        let shorter = listing.drop_last();
        assert forall|i: int| 0 <= i < shorter.len() implies {
            &&& (#[trigger] shorter[i]).name is Ok
            &&& shorter[i].driver_name is Ok
            &&& !ids.contains(shorter[i].driver_name->Ok_0)
        } by {
            assert(shorter[i] == listing[i]);
        }
        lemma_no_match_is_not_connected(root, class_name, shorter, ids);
        assert(listing.last() == listing[listing.len() - 1]);
    }
}

/// Discovery is a function of the class name, the listing and the driver
/// identifiers: two searches for the one instance of a driver over the same
/// values give the same result.
pub proof fn lemma_search_by_driver_is_repeatable(
    root: &str,
    class_name: &str,
    listing: &Vec<DirEntry>,
    driver_name_vec: &Vec<String>,
    first: Ev3Result<String>,
    second: Ev3Result<String>,
)
    requires
        name_result(first) == name_by_driver(
            root@,
            class_name@,
            entries(listing@),
            texts(driver_name_vec@),
        ),
        name_result(second) == name_by_driver(
            root@,
            class_name@,
            entries(listing@),
            texts(driver_name_vec@),
        ),
    ensures
        name_result(first) == name_result(second),
{
}

/// Two searches by port and driver over the same values give the same result.
pub proof fn lemma_search_by_port_is_repeatable(
    root: &str,
    class_name: &str,
    listing: &Vec<DirEntry>,
    port_address: &str,
    driver_name_vec: &Vec<String>,
    first: Ev3Result<String>,
    second: Ev3Result<String>,
)
    requires
        name_result(first) == name_by_port_and_driver(
            root@,
            class_name@,
            entries(listing@),
            port_address@,
            texts(driver_name_vec@),
        ),
        name_result(second) == name_by_port_and_driver(
            root@,
            class_name@,
            entries(listing@),
            port_address@,
            texts(driver_name_vec@),
        ),
    ensures
        name_result(first) == name_result(second),
{
}

/// Whether an entry could be read in full for a search by driver.
pub open spec fn is_readable(e: EntryModel) -> bool {
    e.name is Ok && e.driver_name is Ok
}

/// Where every listed instance is readable, the search by driver gives the
/// names of exactly the instances whose driver is among `ids`, in listing
/// order.
pub proof fn lemma_names_by_driver_are_the_matches(
    root: Seq<char>,
    class_name: Seq<char>,
    listing: Seq<EntryModel>,
    ids: Seq<Seq<char>>,
)
    requires
        forall|i: int| 0 <= i < listing.len() ==> is_readable(#[trigger] listing[i]),
    ensures
        names_by_driver(root, class_name, listing, ids) == Ok::<Seq<Seq<char>>, ErrorModel>(
            listing.filter(|e: EntryModel| ids.contains(e.driver_name->Ok_0)).map_values(
                |e: EntryModel| e.name->Ok_0,
            ),
        ),
    decreases listing.len(),
{
    let accepted = |e: EntryModel| ids.contains(e.driver_name->Ok_0);
    let name_of = |e: EntryModel| e.name->Ok_0;
    reveal(Seq::filter);
    if listing.len() == 0 {
        assert(listing.filter(accepted).map_values(name_of) =~= Seq::<Seq<char>>::empty());
    } else {
        let shorter = listing.drop_last();
        assert forall|i: int| 0 <= i < shorter.len() implies is_readable(#[trigger] shorter[i]) by {
            assert(shorter[i] == listing[i]);
        }
        lemma_names_by_driver_are_the_matches(root, class_name, shorter, ids);
        let last = listing.last();
        assert(is_readable(listing[listing.len() - 1]));
        if accepted(last) {
            assert(listing.filter(accepted) == shorter.filter(accepted).push(last));
            assert(shorter.filter(accepted).push(last).map_values(name_of) =~= shorter.filter(
                accepted,
            ).map_values(name_of).push(last.name->Ok_0));
        } else {
            assert(listing.filter(accepted) == shorter.filter(accepted));
        }
    }
}

/// The search by port and driver is decided by the first entry that does
/// not say no: the entries before it do not count, nor those after it.
pub proof fn lemma_first_answer_decides(
    root: Seq<char>,
    class_name: Seq<char>,
    listing: Seq<EntryModel>,
    port: Seq<char>,
    ids: Seq<Seq<char>>,
    at: int,
)
    requires
        0 <= at < listing.len(),
        forall|j: int|
            0 <= j < at ==> probe_by_port(root, class_name, #[trigger] listing[j], port, ids) == Ok::<
                Option<Seq<char>>,
                ErrorModel,
            >(None),
        probe_by_port(root, class_name, listing[at], port, ids) != Ok::<Option<Seq<char>>, ErrorModel>(
            None,
        ),
    ensures
        name_by_port_and_driver(root, class_name, listing, port, ids) == name_by_port_from(
            root,
            class_name,
            listing,
            port,
            ids,
            at,
        ),
        probe_by_port(root, class_name, listing[at], port, ids) matches Ok(Some(n))
            ==> name_by_port_and_driver(root, class_name, listing, port, ids) == Ok::<
            Seq<char>,
            ErrorModel,
        >(n),
        probe_by_port(root, class_name, listing[at], port, ids) matches Err(e)
            ==> name_by_port_and_driver(root, class_name, listing, port, ids) == Err::<
            Seq<char>,
            ErrorModel,
        >(e),
{
    lemma_skip_to(root, class_name, listing, port, ids, at);
}

/// Where no entry sits at the port with a driver among `ids`, and all that
/// the search reads can be read, it fails with `NotConnected` and the port.
pub proof fn lemma_no_answer_is_not_connected(
    root: Seq<char>,
    class_name: Seq<char>,
    listing: Seq<EntryModel>,
    port: Seq<char>,
    ids: Seq<Seq<char>>,
)
    requires
        forall|j: int|
            0 <= j < listing.len() ==> probe_by_port(root, class_name, #[trigger] listing[j], port, ids)
                == Ok::<Option<Seq<char>>, ErrorModel>(None),
    ensures
        name_by_port_and_driver(root, class_name, listing, port, ids) == Err::<Seq<char>, ErrorModel>(
            ErrorModel::NotConnected { device: id_list_text(ids), port: Some(port) },
        ),
{
    lemma_skip_to(root, class_name, listing, port, ids, listing.len() as int);
}

/// Entries that say no can be skipped: the search from the start equals the
/// search from the first index after them.
proof fn lemma_skip_to(
    root: Seq<char>,
    class_name: Seq<char>,
    listing: Seq<EntryModel>,
    port: Seq<char>,
    ids: Seq<Seq<char>>,
    upto: int,
)
    requires
        0 <= upto <= listing.len(),
        forall|j: int|
            0 <= j < upto ==> probe_by_port(root, class_name, #[trigger] listing[j], port, ids) == Ok::<
                Option<Seq<char>>,
                ErrorModel,
            >(None),
    ensures
        name_by_port_and_driver(root, class_name, listing, port, ids) == name_by_port_from(
            root,
            class_name,
            listing,
            port,
            ids,
            upto,
        ),
    decreases upto,
{
    if upto > 0 {
        lemma_skip_to(root, class_name, listing, port, ids, upto - 1);
        assert(probe_by_port(root, class_name, listing[upto - 1], port, ids) == Ok::<
            Option<Seq<char>>,
            ErrorModel,
        >(None));
    }
}

} // verus!
