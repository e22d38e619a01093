//! The embedded resource table.
//!
//! The helper carries a fixed set of named binary blobs, selected for one
//! target architecture when the binary is built. The set is constructed
//! once at startup, is read-only afterwards, and its names are unique.

use vstd::prelude::*;

verus! {

/// One embedded resource: an immutable pair of name and content bytes.
pub struct Resource {
    pub name: String,
    pub data: Vec<u8>,
}

/// Mathematical value of a [`Resource`].
#[verifier::ext_equal]
pub struct ResourceView {
    pub name: Seq<char>,
    pub data: Seq<u8>,
}

impl View for Resource {
    type V = ResourceView;

    open spec fn view(&self) -> ResourceView {
        ResourceView { name: self.name@, data: self.data@ }
    }
}

/// Whether some resource in `rs` carries `name`.
pub open spec fn contains_name(rs: Seq<ResourceView>, name: Seq<char>) -> bool {
    exists|i: int| 0 <= i < rs.len() && rs[i].name == name
}

/// All resource names in `rs` are distinct.
pub open spec fn unique_names(rs: Seq<ResourceView>) -> bool {
    forall|i: int, j: int| 0 <= i < j < rs.len() ==> rs[i].name != rs[j].name
}

/// The first resource in `rs` carrying `name`, if any.
pub open spec fn find_resource(rs: Seq<ResourceView>, name: Seq<char>) -> Option<ResourceView>
    decreases rs.len(),
{
    if rs.len() == 0 {
        None::<ResourceView>
    } else if rs[0].name == name {
        Some(rs[0])
    } else {
        find_resource(rs.drop_first(), name)
    }
}

/// While the first `n` resources all miss `name`, the search outcome is
/// decided by the remainder of the sequence.
proof fn lemma_find_resource_skip(rs: Seq<ResourceView>, name: Seq<char>, n: int)
    requires
        0 <= n <= rs.len(),
        forall|j: int| 0 <= j < n ==> rs[j].name != name,
    ensures
        find_resource(rs, name) == find_resource(rs.skip(n), name),
    decreases n,
{
    if n > 0 {
        assert(rs.len() > 0);
        assert(rs[0].name != name);
        assert(rs.drop_first() == rs.skip(1));
        lemma_find_resource_skip(rs.drop_first(), name, n - 1);
        assert(rs.drop_first().skip(n - 1) =~= rs.skip(n));
    } else {
        assert(rs.skip(0) =~= rs);
    }
}

/// The fixed, build-time-selected set of embedded resources.
pub struct ResourceSet {
    items: Vec<Resource>,
}

impl View for ResourceSet {
    type V = Seq<ResourceView>;

    closed spec fn view(&self) -> Seq<ResourceView> {
        self.items@.map_values(|r: Resource| r@)
    }
}

impl ResourceSet {
    /// Names are unique within the set.
    pub open spec fn wf(&self) -> bool {
        unique_names(self@)
    }

    /// An empty set.
    pub fn new() -> (r: ResourceSet)
        ensures
            r.wf(),
            r@ == Seq::<ResourceView>::empty(),
    {
        let r = ResourceSet { items: Vec::new() };
        proof {
            assert(r@ =~= Seq::<ResourceView>::empty());
        }
        r
    }

    /// Number of resources in the set.
    pub fn len(&self) -> (n: usize)
        ensures
            n == self@.len(),
    {
        self.items.len()
    }

    /// Adds a resource; refuses a duplicate name, leaving the set
    /// unchanged in that case.
    pub fn add(&mut self, name: String, data: Vec<u8>) -> (r: bool)
        requires
            old(self).wf(),
        ensures
            final(self).wf(),
            r == !contains_name(old(self)@, name@),
            r ==> final(self)@ == old(self)@.push(ResourceView { name: name@, data: data@ }),
            !r ==> final(self)@ == old(self)@,
    {
        let n = self.items.len();
        let mut i: usize = 0;
        while i < n
            invariant
                0 <= i <= n,
                n == self.items@.len(),
                *self == *old(self),
                self.wf(),
                self@ == self.items@.map_values(|r: Resource| r@),
                forall|j: int| 0 <= j < i ==> self@[j].name != name@,
            decreases n - i,
        {
            if self.items[i].name == name {
                assert(self@[i as int].name == name@);
                return false;
            }
            i += 1;
        }
        assert(!contains_name(self@, name@));
        let ghost before = self@;
        self.items.push(Resource { name, data });
        proof {
            assert(self@ =~= before.push(ResourceView { name: name@, data: data@ }));
            assert forall|i: int, j: int| 0 <= i < j < self@.len() implies self@[i].name
                != self@[j].name by {
                if j == self@.len() - 1 {
                    assert(!contains_name(before, name@));
                    assert(before[i].name != name@);
                }
            }
        }
        true
    }

    /// The resource at position `i`.
    pub fn item(&self, i: usize) -> (r: &Resource)
        requires
            i < self@.len(),
        ensures
            r@ == self@[i as int],
    {
        &self.items[i]
    }

    /// Looks a resource up by name.
    pub fn get(&self, name: &String) -> (r: Option<&Resource>)
        ensures
            match r {
                Some(res) => find_resource(self@, name@) == Some(res@),
                None => find_resource(self@, name@) is None,
            },
    {
        let n = self.items.len();
        let mut i: usize = 0;
        while i < n
            invariant
                0 <= i <= n,
                n == self.items@.len(),
                self@ == self.items@.map_values(|r: Resource| r@),
                forall|j: int| 0 <= j < i ==> self@[j].name != name@,
            decreases n - i,
        {
            if self.items[i].name == *name {
                proof {
                    lemma_find_resource_skip(self@, name@, i as int);
                    assert(self@.skip(i as int)[0] == self@[i as int]);
                    assert(self@.skip(i as int).len() > 0);
                }
                return Some(&self.items[i]);
            }
            i += 1;
        }
        proof {
            lemma_find_resource_skip(self@, name@, n as int);
            assert(self@.skip(n as int).len() == 0);
        }
        None
    }
}

} // verus!
