//! Where the Windows broker looks for the programs that it runs, in order: an override comes first,
//! then what was installed beside the broker, then the build tree.

use vstd::prelude::*;

verus! {

/// What a place is relative to.
#[derive(Debug, Clone, Copy, PartialEq, Eq, Structural)]
pub enum Base {
    /// The program that an environment variable names.
    NamedProgram,
    /// The directory that an environment variable names.
    NamedDirectory,
    /// The directory of the broker itself.
    OwnDirectory,
    /// The working directory.
    WorkingDirectory,
    /// Nothing: the path is complete.
    Nowhere,
}

/// One place: a path below a base.
#[derive(Debug, Clone, Copy, PartialEq, Eq)]
pub struct Place {
    pub base: Base,
    pub path: &'static str,
}

/// The content of a [`Place`].
pub struct PlaceView {
    pub base: Base,
    pub path: Seq<char>,
}

impl View for Place {
    type V = PlaceView;

    open spec fn view(&self) -> PlaceView {
        PlaceView { base: self.base, path: self.path@ }
    }
}

/// The contents of a list of places.
pub open spec fn place_views(v: Seq<Place>) -> Seq<PlaceView> {
    Seq::new(v.len(), |i: int| v[i]@)
}

/// Which bases there are: the overrides that are set, and the directories that are known.
#[derive(Debug, Clone, Copy, PartialEq, Eq, Structural)]
pub struct Known {
    pub named_program: bool,
    pub named_directory: bool,
    pub own_directory: bool,
    pub working_directory: bool,
}

impl Known {
    /// Whether a base is there.
    pub open spec fn has(self, base: Base) -> bool {
        match base {
            Base::NamedProgram => self.named_program,
            Base::NamedDirectory => self.named_directory,
            Base::OwnDirectory => self.own_directory,
            Base::WorkingDirectory => self.working_directory,
            Base::Nowhere => true,
        }
    }

    fn holds(&self, base: Base) -> (r: bool)
        ensures
            r == self.has(base),
    {
        match base {
            Base::NamedProgram => self.named_program,
            Base::NamedDirectory => self.named_directory,
            Base::OwnDirectory => self.own_directory,
            Base::WorkingDirectory => self.working_directory,
            Base::Nowhere => true,
        }
    }
}

/// Those of the first `n` places whose base is there.
pub open spec fn reachable(places: Seq<PlaceView>, known: Known, n: int) -> Seq<PlaceView>
    decreases n,
{
    if n <= 0 {
        Seq::empty()
    } else if known.has(places[n - 1].base) {
        reachable(places, known, n - 1).push(places[n - 1])
    } else {
        reachable(places, known, n - 1)
    }
}

fn keep_reachable(places: Vec<Place>, known: Known) -> (r: Vec<Place>)
    ensures
        place_views(r@) == reachable(place_views(places@), known, places@.len() as int),
{
    let ghost all = place_views(places@);
    let mut out: Vec<Place> = Vec::new();
    assert(place_views(out@) =~= Seq::empty());
    let mut i: usize = 0;
    while i < places.len()
        invariant
            i <= places@.len(),
            all == place_views(places@),
            place_views(out@) == reachable(all, known, i as int),
        decreases places@.len() - i,
    {
        let place = places[i];
        assert(all[i as int] == place@);
        if known.holds(place.base) {
            let ghost before = out@;
            out.push(place);
            assert(place_views(out@) =~= place_views(before).push(place@));
        }
        i = i + 1;
    }
    out
}

/// Every place where charon may lie.
pub open spec fn charon_places() -> Seq<PlaceView> {
    seq![
        PlaceView { base: Base::NamedProgram, path: ""@ },
        PlaceView { base: Base::NamedDirectory, path: "charon-svc.exe"@ },
        PlaceView { base: Base::OwnDirectory, path: "charon/charon-svc.exe"@ },
        PlaceView { base: Base::OwnDirectory, path: "charon-svc.exe"@ },
        PlaceView {
            base: Base::OwnDirectory,
            path: "../../out/strongswan-windows/charon-svc.exe"@,
        },
        PlaceView {
            base: Base::WorkingDirectory,
            path: "out/strongswan-windows/charon-svc.exe"@,
        },
    ]
}

/// Where to look for charon, in order.
pub fn charon_exe(known: Known) -> (r: Vec<Place>)
    ensures
        place_views(r@) == reachable(charon_places(), known, charon_places().len() as int),
{
    let mut v: Vec<Place> = Vec::new();
    v.push(Place { base: Base::NamedProgram, path: "" });
    v.push(Place { base: Base::NamedDirectory, path: "charon-svc.exe" });
    v.push(Place { base: Base::OwnDirectory, path: "charon/charon-svc.exe" });
    v.push(Place { base: Base::OwnDirectory, path: "charon-svc.exe" });
    v.push(
        Place { base: Base::OwnDirectory, path: "../../out/strongswan-windows/charon-svc.exe" },
    );
    v.push(Place { base: Base::WorkingDirectory, path: "out/strongswan-windows/charon-svc.exe" });
    assert(place_views(v@) =~= charon_places());
    keep_reachable(v, known)
}

/// Every place where OpenVPN may lie; the last is that of another client.
pub open spec fn openvpn_places() -> Seq<PlaceView> {
    seq![
        PlaceView { base: Base::NamedProgram, path: ""@ },
        PlaceView { base: Base::OwnDirectory, path: "openvpn/openvpn.exe"@ },
        PlaceView { base: Base::OwnDirectory, path: "openvpn.exe"@ },
        PlaceView { base: Base::OwnDirectory, path: "../../out/openvpn/openvpn.exe"@ },
        PlaceView {
            base: Base::Nowhere,
            path: "C:\\Program Files (x86)\\Sophos\\Connect\\openvpn.exe"@,
        },
    ]
}

/// Where to look for OpenVPN, in order.
pub fn openvpn_exe(known: Known) -> (r: Vec<Place>)
    ensures
        place_views(r@) == reachable(openvpn_places(), known, openvpn_places().len() as int),
{
    let mut v: Vec<Place> = Vec::new();
    v.push(Place { base: Base::NamedProgram, path: "" });
    v.push(Place { base: Base::OwnDirectory, path: "openvpn/openvpn.exe" });
    v.push(Place { base: Base::OwnDirectory, path: "openvpn.exe" });
    v.push(Place { base: Base::OwnDirectory, path: "../../out/openvpn/openvpn.exe" });
    v.push(
        Place {
            base: Base::Nowhere,
            path: "C:\\Program Files (x86)\\Sophos\\Connect\\openvpn.exe",
        },
    );
    assert(place_views(v@) =~= openvpn_places());
    keep_reachable(v, known)
}

/// An override that is set is tried before anything else.
pub proof fn law_override_comes_first(known: Known)
    requires
        known.named_program,
    ensures
        reachable(charon_places(), known, charon_places().len() as int)[0].base
            == Base::NamedProgram,
        reachable(openvpn_places(), known, openvpn_places().len() as int)[0].base
            == Base::NamedProgram,
{
    reveal_with_fuel(reachable, 8);
}

proof fn lemma_reachable_parts(a: Seq<PlaceView>, b: Seq<PlaceView>, known: Known, n: int)
    requires
        0 <= n <= (a + b).len(),
    ensures
        n <= a.len() ==> reachable(a + b, known, n) == reachable(a, known, n),
        n >= a.len() ==> reachable(a + b, known, n) == reachable(a, known, a.len() as int)
            + reachable(b, known, n - a.len()),
    decreases n,
{
    if n > 0 {
        lemma_reachable_parts(a, b, known, n - 1);
        if n <= a.len() {
            assert((a + b)[n - 1] == a[n - 1]);
        } else {
            assert((a + b)[n - 1] == b[n - 1 - a.len()]);
        }
    }
    if n >= a.len() {
        assert(reachable(a + b, known, n) =~= reachable(a, known, a.len() as int) + reachable(
            b,
            known,
            n - a.len(),
        ));
    }
}

/// A place is looked in when what it starts from is known, whatever is known of the others, and
/// the order stays.
pub proof fn law_each_place_depends_on_its_base(
    a: Seq<PlaceView>,
    b: Seq<PlaceView>,
    p: PlaceView,
    known: Known,
)
    ensures
        reachable(a + b, known, (a + b).len() as int) == reachable(a, known, a.len() as int)
            + reachable(b, known, b.len() as int),
        reachable(seq![p], known, 1) == (if match p.base {
            Base::NamedProgram => known.named_program,
            Base::NamedDirectory => known.named_directory,
            Base::OwnDirectory => known.own_directory,
            Base::WorkingDirectory => known.working_directory,
            Base::Nowhere => true,
        } {
            seq![p]
        } else {
            Seq::empty()
        }),
{
    lemma_reachable_parts(a, b, known, (a + b).len() as int);
    reveal_with_fuel(reachable, 2);
}

/// When everything is known, charon is looked for where it was named, then beside the program and
/// then in a build tree, and OpenVPN likewise and at last where another product leaves it.
pub proof fn law_programs_are_looked_for_in_order(known: Known)
    requires
        known.named_program && known.named_directory && known.own_directory
            && known.working_directory,
    ensures
        ({
            let c = reachable(charon_places(), known, charon_places().len() as int);
            let o = reachable(openvpn_places(), known, openvpn_places().len() as int);
            &&& c.len() == 6
            &&& c[0] == PlaceView { base: Base::NamedProgram, path: ""@ }
            &&& c[1] == PlaceView { base: Base::NamedDirectory, path: "charon-svc.exe"@ }
            &&& c[2] == PlaceView { base: Base::OwnDirectory, path: "charon/charon-svc.exe"@ }
            &&& c[3] == PlaceView { base: Base::OwnDirectory, path: "charon-svc.exe"@ }
            &&& c[4].base == Base::OwnDirectory && c[4].path == "../../out/strongswan-windows/charon-svc.exe"@
            &&& c[5].base == Base::WorkingDirectory && c[5].path == "out/strongswan-windows/charon-svc.exe"@
            &&& o.len() == 5
            &&& o[0] == PlaceView { base: Base::NamedProgram, path: ""@ }
            &&& o[1] == PlaceView { base: Base::OwnDirectory, path: "openvpn/openvpn.exe"@ }
            &&& o[2] == PlaceView { base: Base::OwnDirectory, path: "openvpn.exe"@ }
            &&& o[3].base == Base::OwnDirectory && o[3].path == "../../out/openvpn/openvpn.exe"@
            &&& o[4].base == Base::Nowhere && o[4].path
                == "C:\\Program Files (x86)\\Sophos\\Connect\\openvpn.exe"@
        }),
{
    reveal_with_fuel(reachable, 8);
}

} // verus!
