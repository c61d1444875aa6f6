//! Where files live, by the XDG base directories.
use vstd::prelude::*;

verus! {

/// A path with a component added: an absolute component takes the path's
/// place, and a slash comes between where the path does not end in one.
pub open spec fn path_join(base: Seq<u8>, part: Seq<u8>) -> Seq<u8> {
    if part.len() > 0 && part[0] == 0x2f {
        part
    } else if base.len() == 0 || base.last() == 0x2f {
        base + part
    } else {
        base.push(0x2f) + part
    }
}

/// The bytes of a text.
pub open spec fn bytes(s: &str) -> Seq<u8> {
    vstd::utf8::encode_utf8(s@)
}

/// Adds a component to a path.
pub fn join(base: Vec<u8>, part: &str) -> (r: Vec<u8>)
    ensures
        r@ == path_join(base@, bytes(part)),
{
    let added = part.as_bytes();
    let n = added.len();
    let absolute = n > 0 && added[0] == 0x2f;
    let mut out: Vec<u8> = if absolute {
        Vec::new()
    } else {
        base
    };
    if !absolute && out.len() > 0 && out[out.len() - 1] != 0x2f {
        out.push(0x2f);
    }
    let ghost start = out@;
    let mut i: usize = 0;
    proof {
        assert(out@ =~= start + added@.take(0));
    }
    while i < n
        invariant
            i <= n,
            n == added@.len(),
            out@ == start + added@.take(i as int),
        decreases n - i,
    {
        out.push(added[i]);
        i = i + 1;
        proof {
            assert(out@ =~= start + added@.take(i as int));
        }
    }
    proof {
        assert(added@.take(n as int) =~= added@);
        assert(out@ =~= path_join(base@, added@));
    }
    out
}

/// The home directory: what the environment says, or the root.
pub open spec fn home_dir(home: Option<Seq<u8>>) -> Seq<u8> {
    match home {
        Some(dir) => dir,
        None => bytes("/"),
    }
}

/// What the environment says, where it says something.
pub open spec fn chosen(xdg: Option<Seq<u8>>) -> Option<Seq<u8>> {
    match xdg {
        Some(dir) => if dir.len() > 0 {
            Some(dir)
        } else {
            None
        },
        None => None,
    }
}

/// The home directory.
fn home_or_root(home: Option<Vec<u8>>) -> (r: Vec<u8>)
    ensures
        r@ == home_dir(crate::text::opt(home)),
{
    match home {
        Some(dir) => dir,
        None => {
            let empty: Vec<u8> = Vec::new();
            let r = join(empty, "/");
            proof {
                reveal_strlit("/");
                assert(r@ =~= bytes("/"));
            }
            r
        },
    }
}

/// A base directory: where the environment names one, that, and else the one
/// below the home directory that `first` and `second` lead to.
pub open spec fn base_dir(
    xdg: Option<Seq<u8>>,
    home: Option<Seq<u8>>,
    first: Seq<u8>,
    second: Option<Seq<u8>>,
) -> Seq<u8> {
    match chosen(xdg) {
        Some(dir) => dir,
        None => {
            let below = path_join(home_dir(home), first);
            match second {
                Some(part) => path_join(below, part),
                None => below,
            }
        },
    }
}

/// Chooses a base directory.
pub fn base(xdg: Option<Vec<u8>>, home: Option<Vec<u8>>, first: &str, second: Option<&str>) -> (r:
    Vec<u8>)
    ensures
        r@ == base_dir(
            crate::text::opt(xdg),
            crate::text::opt(home),
            bytes(first),
            match second {
                Some(part) => Some(bytes(part)),
                None => None,
            },
        ),
{
    if let Some(dir) = xdg {
        if dir.len() > 0 {
            return dir;
        }
    }
    let below = join(home_or_root(home), first);
    match second {
        Some(part) => join(below, part),
        None => below,
    }
}

/// A relative component comes behind the path with one slash between them, and an
/// absolute one takes its place.
pub proof fn law_one_slash_between(base: Seq<u8>, part: Seq<u8>)
    ensures
        part.len() > 0 && part[0] == 0x2f ==> path_join(base, part) == part,
        base.len() > 0 && base.last() != 0x2f && (part.len() == 0 || part[0] != 0x2f) ==> path_join(
            base,
            part,
        ) == base + seq![0x2fu8] + part,
        base.len() > 0 && base.last() == 0x2f && (part.len() == 0 || part[0] != 0x2f) ==> path_join(
            base,
            part,
        ) == base + part,
        base.len() == 0 ==> path_join(base, part) == part,
{
    if base.len() > 0 {
        assert(base.push(0x2f) + part =~= base + seq![0x2fu8] + part);
    } else {
        assert(base + part =~= part);
    }
}

/// What the environment names goes before the home directory, but an empty name
/// does not count; without a home directory the root takes its place.
pub proof fn law_the_environment_goes_first(
    dir: Seq<u8>,
    home: Option<Seq<u8>>,
    first: Seq<u8>,
    second: Option<Seq<u8>>,
)
    ensures
        dir.len() > 0 ==> base_dir(Some(dir), home, first, second) == dir,
        base_dir(Some(Seq::empty()), home, first, second) == base_dir(None, home, first, second),
        home matches Some(own) ==> base_dir(None, home, first, None) == path_join(own, first),
        home matches Some(own) ==> second matches Some(below) ==> base_dir(None, home, first, second)
            == path_join(path_join(own, first), below),
        base_dir(None, None, first, second) == base_dir(None, Some(bytes("/")), first, second),
{
}

} // verus!
