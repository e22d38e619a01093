//! The resource installer.
//!
//! [`ensure_binaries`] installs every embedded resource under the fixed
//! protected directory, fail-fast and without rollback. [`extract_su`]
//! installs the privileged switch-user resource under a runtime-resolved
//! base directory and then applies the security label to it.

use vstd::prelude::*;

use crate::errors::InstallError;
use crate::fs_model::{
    do_label, do_write, file_at, installed, label_ok, write_ok, FsModel, FsView,
};
use crate::resources::{find_resource, unique_names, ResourceSet, ResourceView};

verus! {

/// The fixed protected directory that resources are installed under.
pub open spec fn binary_dir() -> Seq<char> {
    "/data/adb/ksu/bin/"@
}

/// The protected directory prefix as a runtime value.
pub fn binary_dir_path() -> (r: String)
    ensures
        r@ == binary_dir(),
{
    String::from_str("/data/adb/ksu/bin/")
}

/// Destination of a resource: the protected directory joined with the
/// resource's name.
pub open spec fn dest_path(name: Seq<char>) -> Seq<char> {
    binary_dir() + name
}

/// Destination of the switch-user binary under a base directory.
pub open spec fn su_dest(base: Seq<char>) -> Seq<char> {
    base + "/bin/su"@
}

/// Content bytes of the switch-user resource of a set.
pub open spec fn su_data(rs: Seq<ResourceView>) -> Seq<u8> {
    find_resource(rs, "su"@)->Some_0.data
}

/// Distinct names lead to distinct destinations.
proof fn lemma_dest_path_injective(a: Seq<char>, b: Seq<char>)
    requires
        dest_path(a) == dest_path(b),
    ensures
        a == b,
{
    assert((binary_dir() + a).len() == binary_dir().len() + a.len());
    assert((binary_dir() + b).len() == binary_dir().len() + b.len());
    assert(a.len() == b.len());
    assert forall|i: int| 0 <= i < a.len() implies a[i] == b[i] by {
        assert((binary_dir() + a)[binary_dir().len() + i] == a[i]);
        assert((binary_dir() + b)[binary_dir().len() + i] == b[i]);
    }
    assert(a =~= b);
}

proof fn lemma_unique_dests(rs: Seq<ResourceView>)
    requires
        unique_names(rs),
    ensures
        forall|i: int, j: int|
            0 <= i < rs.len() && 0 <= j < rs.len() && i != j ==> dest_path(#[trigger] rs[i].name)
                != dest_path(#[trigger] rs[j].name),
{
    assert forall|i: int, j: int|
        0 <= i < rs.len() && 0 <= j < rs.len() && i != j implies dest_path(
        #[trigger] rs[i].name,
    ) != dest_path(#[trigger] rs[j].name) by {
        if dest_path(rs[i].name) == dest_path(rs[j].name) {
            lemma_dest_path_injective(rs[i].name, rs[j].name);
        }
    }
}

/// State after the first `n` resources have been put through the
/// idempotent write primitive, in order.
pub open spec fn install_upto(fs0: FsView, rs: Seq<ResourceView>, n: int) -> FsView
    decreases n,
{
    if n <= 0 {
        fs0
    } else {
        do_write(install_upto(fs0, rs, n - 1), dest_path(rs[n - 1].name), rs[n - 1].data)
    }
}

/// State after a full installer run.
pub open spec fn install_all(fs0: FsView, rs: Seq<ResourceView>) -> FsView {
    install_upto(fs0, rs, rs.len() as int)
}

/// The write primitive succeeds at step `i` of a run started on `fs0`.
pub open spec fn step_ok(fs0: FsView, rs: Seq<ResourceView>, i: int) -> bool {
    write_ok(install_upto(fs0, rs, i), dest_path(rs[i].name), rs[i].data)
}

/// The first `n` steps of a run started on `fs0` all succeed.
pub open spec fn steps_ok_upto(fs0: FsView, rs: Seq<ResourceView>, n: int) -> bool {
    forall|i: int| 0 <= i < n ==> step_ok(fs0, rs, i)
}

/// Every resource of `rs` has a byte-identical, executable copy at its
/// destination in `fs`.
pub open spec fn all_installed(fs: FsView, rs: Seq<ResourceView>) -> bool {
    forall|i: int|
        0 <= i < rs.len() ==> installed(fs, dest_path(#[trigger] rs[i].name), rs[i].data)
}

/// What the installer guarantees when it fails at step `k`: the steps
/// before `k` succeeded and their resources are installed, step `k`'s
/// write was refused, no destination from `k` on was touched, and the
/// error names step `k`'s destination.
pub open spec fn install_failure(
    fs0: FsView,
    rs: Seq<ResourceView>,
    fsf: FsView,
    e: InstallError,
    k: int,
) -> bool {
    &&& 0 <= k < rs.len()
    &&& steps_ok_upto(fs0, rs, k)
    &&& !step_ok(fs0, rs, k)
    &&& fsf == install_upto(fs0, rs, k)
    &&& forall|i: int|
        0 <= i < k ==> installed(fsf, dest_path(#[trigger] rs[i].name), rs[i].data)
    &&& forall|i: int|
        k <= i < rs.len() ==> file_at(fsf, dest_path(#[trigger] rs[i].name)) == file_at(
            fs0,
            dest_path(rs[i].name),
        )
    &&& (e matches InstallError::BinaryWrite { path } && path@ == dest_path(rs[k].name))
}

/// A destination that none of the first `n` steps writes to is untouched.
proof fn lemma_install_upto_untouched(fs0: FsView, rs: Seq<ResourceView>, n: int, p: Seq<char>)
    requires
        0 <= n <= rs.len(),
        forall|j: int| 0 <= j < n ==> dest_path(#[trigger] rs[j].name) != p,
    ensures
        file_at(install_upto(fs0, rs, n), p) == file_at(fs0, p),
    decreases n,
{
    if n > 0 {
        lemma_install_upto_untouched(fs0, rs, n - 1, p);
    }
}

/// After `n` steps, each of the first `n` resources is installed.
proof fn lemma_install_upto_installed(fs0: FsView, rs: Seq<ResourceView>, n: int)
    requires
        unique_names(rs),
        0 <= n <= rs.len(),
    ensures
        forall|j: int|
            0 <= j < n ==> installed(
                install_upto(fs0, rs, n),
                dest_path(#[trigger] rs[j].name),
                rs[j].data,
            ),
    decreases n,
{
    if n > 0 {
        lemma_install_upto_installed(fs0, rs, n - 1);
        lemma_unique_dests(rs);
        assert forall|j: int|
            0 <= j < n implies installed(
            install_upto(fs0, rs, n),
            dest_path(#[trigger] rs[j].name),
            rs[j].data,
        ) by {
            if j < n - 1 {
                assert(dest_path(rs[j].name) != dest_path(rs[n - 1].name));
            }
        }
    }
}

/// On a state where every resource is already installed, a run is a
/// no-op and every step succeeds.
proof fn lemma_install_upto_noop(fs: FsView, rs: Seq<ResourceView>, n: int)
    requires
        all_installed(fs, rs),
        0 <= n <= rs.len(),
    ensures
        install_upto(fs, rs, n) == fs,
        steps_ok_upto(fs, rs, n),
    decreases n,
{
    if n > 0 {
        lemma_install_upto_noop(fs, rs, n - 1);
        assert(installed(fs, dest_path(rs[n - 1].name), rs[n - 1].data));
        assert forall|i: int| 0 <= i < n implies step_ok(fs, rs, i) by {
            assert(installed(fs, dest_path(rs[i].name), rs[i].data));
        }
    }
}

/// Idempotence of the installer: a successful run leaves every resource
/// installed, and a second run started on the state the first one
/// produced succeeds at every step and changes nothing.
pub proof fn lemma_ensure_binaries_idempotent(fs0: FsView, rs: Seq<ResourceView>)
    requires
        unique_names(rs),
    ensures
        all_installed(install_all(fs0, rs), rs),
        steps_ok_upto(install_all(fs0, rs), rs, rs.len() as int),
        install_all(install_all(fs0, rs), rs) == install_all(fs0, rs),
{
    lemma_install_upto_installed(fs0, rs, rs.len() as int);
    lemma_install_upto_noop(install_all(fs0, rs), rs, rs.len() as int);
}

/// Installs every resource of the set to its destination under the
/// protected directory: a byte-identical, executable copy of each, in
/// set order, failing fast on the first refused write and rolling
/// nothing back.
pub fn ensure_binaries(fs: &mut FsModel, set: &ResourceSet) -> (r: Result<(), InstallError>)
    requires
        old(fs).wf(),
        set.wf(),
    ensures
        final(fs).wf(),
        match r {
            Ok(()) => {
                &&& steps_ok_upto(old(fs)@, set@, set@.len() as int)
                &&& final(fs)@ == install_all(old(fs)@, set@)
                &&& all_installed(final(fs)@, set@)
            },
            Err(e) => exists|k: int|
                #[trigger] install_failure(old(fs)@, set@, final(fs)@, e, k),
        },
{
    let n = set.len();
    let mut i: usize = 0;
    while i < n
        invariant
            0 <= i <= n,
            n == set@.len(),
            set.wf(),
            fs.wf(),
            fs@ == install_upto(old(fs)@, set@, i as int),
            steps_ok_upto(old(fs)@, set@, i as int),
        decreases n - i,
    {
        let res = set.item(i);
        let dest = binary_dir_path().concat(res.name.as_str());
        proof {
            assert(dest@ == dest_path(set@[i as int].name));
        }
        let ghost prev = fs@;
        match fs.ensure_binary(&dest, &res.data) {
            Ok(()) => {
                proof {
                    assert(fs@ == install_upto(old(fs)@, set@, i as int + 1));
                    assert(step_ok(old(fs)@, set@, i as int));
                    assert forall|j: int| 0 <= j < i as int + 1 implies step_ok(
                        old(fs)@,
                        set@,
                        j,
                    ) by {}
                }
            }
            Err(_) => {
                let e = InstallError::BinaryWrite { path: dest };
                proof {
                    let k = i as int;
                    lemma_unique_dests(set@);
                    lemma_install_upto_installed(old(fs)@, set@, k);
                    assert forall|i2: int| k <= i2 < set@.len() implies file_at(
                        fs@,
                        dest_path(#[trigger] set@[i2].name),
                    ) == file_at(old(fs)@, dest_path(set@[i2].name)) by {
                        lemma_install_upto_untouched(
                            old(fs)@,
                            set@,
                            k,
                            dest_path(set@[i2].name),
                        );
                    }
                    assert(install_failure(old(fs)@, set@, fs@, e, k));
                }
                return Err(e);
            }
        }
        i += 1;
    }
    proof {
        lemma_install_upto_installed(old(fs)@, set@, n as int);
    }
    Ok(())
}

/// Installs the switch-user resource to `{base}/bin/su` with the same
/// idempotent write primitive and then applies the security label to it.
/// Each of the three failures — base lookup, binary write, labeling — is
/// reported as its own error; the label is requested only after the
/// write has succeeded, and a kept binary is not rolled back when
/// labeling fails.
pub fn extract_su(
    fs: &mut FsModel,
    set: &ResourceSet,
    base: &Result<String, String>,
) -> (r: Result<(), InstallError>)
    requires
        old(fs).wf(),
        set.wf(),
        find_resource(set@, "su"@) is Some,
    ensures
        final(fs).wf(),
        (*base) matches Err(cause) ==> {
            &&& r == Result::<(), InstallError>::Err(InstallError::PathLookup { cause })
            &&& *final(fs) == *old(fs)
        },
        (*base) matches Ok(b) ==> {
            let dest = su_dest(b@);
            let data = su_data(set@);
            if !write_ok(old(fs)@, dest, data) {
                &&& (r matches Err(e) && e matches InstallError::SuExtract { path } && path@
                    == dest)
                &&& *final(fs) == *old(fs)
            } else if !label_ok(do_write(old(fs)@, dest, data), dest) {
                &&& (r matches Err(e) && e matches InstallError::SetContext { path } && path@
                    == dest)
                &&& final(fs)@ == do_write(old(fs)@, dest, data)
            } else {
                &&& r matches Ok(())
                &&& final(fs)@ == do_label(do_write(old(fs)@, dest, data), dest)
                &&& installed(final(fs)@, dest, data)
                &&& file_at(final(fs)@, dest) matches Some(f) && f.labeled
            }
        },
{
    let b = match base {
        Ok(b) => b,
        Err(e) => {
            return Err(InstallError::PathLookup { cause: e.clone() });
        }
    };
    let dest = b.clone().concat("/bin/su");
    proof {
        assert(dest@ == su_dest(b@));
    }
    let su_name = "su".to_owned();
    let res = match set.get(&su_name) {
        Some(r) => r,
        None => {
            proof {
                assert(su_name@ == "su"@);
            }
            unreached()
        }
    };
    proof {
        assert(res@.data == su_data(set@));
    }
    match fs.ensure_binary(&dest, &res.data) {
        Ok(()) => {}
        Err(_) => {
            return Err(InstallError::SuExtract { path: dest });
        }
    }
    match fs.set_label(&dest) {
        Ok(()) => {}
        Err(_) => {
            return Err(InstallError::SetContext { path: dest });
        }
    }
    Ok(())
}

/// Fixed path of the property-reset helper resource.
pub fn resetprop_path() -> (r: String)
    ensures
        r@ == dest_path("resetprop"@),
{
    binary_dir_path().concat("resetprop")
}

/// Fixed path of the busybox resource.
pub fn busybox_path() -> (r: String)
    ensures
        r@ == dest_path("busybox"@),
{
    binary_dir_path().concat("busybox")
}

} // verus!
