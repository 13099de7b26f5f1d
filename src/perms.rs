//! Symbolic rendering of POSIX permission bits.

use vstd::prelude::*;

verus! {

/// One of the three permission classes of a mode.
pub enum Owner {
    User,
    Group,
    Other,
}

/// The read, write and execute bits of a class, in that order.
pub open spec fn owner_masks(o: Owner) -> Seq<u32> {
    match o {
        Owner::User => seq![0o400u32, 0o200u32, 0o100u32],
        Owner::Group => seq![0o040u32, 0o020u32, 0o010u32],
        Owner::Other => seq![0o004u32, 0o002u32, 0o001u32],
    }
}

/// `letter` when `mode` has the bit of `mask`, else `-`.
pub open spec fn perm_char(mode: u32, mask: u32, letter: char) -> char {
    if mode & mask == 0 {
        '-'
    } else {
        letter
    }
}

/// The three characters `rwx` of one class, each replaced by `-` when absent.
pub open spec fn triplet(mode: u32, o: Owner) -> Seq<char> {
    let m = owner_masks(o);
    seq![perm_char(mode, m[0], 'r'), perm_char(mode, m[1], 'w'), perm_char(mode, m[2], 'x')]
}

/// The nine-character symbolic form of a mode: owner, group, other.
pub open spec fn mode_text(mode: u32) -> Seq<char> {
    triplet(mode, Owner::User) + triplet(mode, Owner::Group) + triplet(mode, Owner::Other)
}

impl Owner {
    /// The read, write and execute masks of this class.
    pub fn masks(&self) -> (r: [u32; 3])
        ensures
            r@ == owner_masks(*self),
    {
        let r = match self {
            Owner::User => [0o400u32, 0o200, 0o100],
            Owner::Group => [0o040u32, 0o020, 0o010],
            Owner::Other => [0o004u32, 0o002, 0o001],
        };
        assert(r@ =~= owner_masks(*self));
        r
    }
}

fn bit_letter(mode: u32, mask: u32, present: &'static str) -> (r: &'static str)
    requires
        present@.len() == 1,
    ensures
        r@ == seq![perm_char(mode, mask, present@[0])],
{
    proof {
        reveal_strlit("-");
    }
    if mode & mask == 0 {
        assert("-"@ =~= seq!['-']);
        "-"
    } else {
        assert(present@ =~= seq![present@[0]]);
        present
    }
}

/// The three symbolic characters of one class of `mode`.
pub fn mk_triplet(mode: u32, owner: Owner) -> (r: String)
    ensures
        r@ == triplet(mode, owner),
{
    let m = owner.masks();
    proof {
        reveal_strlit("r");
        reveal_strlit("w");
        reveal_strlit("x");
    }
    let mut s = String::new();
    s.append(bit_letter(mode, m[0], "r"));
    s.append(bit_letter(mode, m[1], "w"));
    s.append(bit_letter(mode, m[2], "x"));
    assert(s@ =~= triplet(mode, owner));
    s
}

/// Given a mode such as `0o751`, returns its symbolic form such as `rwxr-x--x`.
pub fn format_mode(mode: u32) -> (r: String)
    ensures
        r@ == mode_text(mode),
{
    let mut s = mk_triplet(mode, Owner::User);
    let g = mk_triplet(mode, Owner::Group);
    let o = mk_triplet(mode, Owner::Other);
    s.append(g.as_str());
    s.append(o.as_str());
    s
}

} // verus!
