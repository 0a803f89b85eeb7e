use vstd::prelude::*;
use vstd::string::StringExecFns;

verus! {

/// Permission bits carried by a capability, one bit per right.
#[derive(Clone, Copy, Debug, PartialEq, Eq, Structural)]
pub struct PermissionBits(u32);

impl View for PermissionBits {
    type V = u32;

    closed spec fn view(&self) -> u32 {
        self.0
    }
}

/// `a` holds every bit of `b`.
pub open spec fn bits_contain(a: u32, b: u32) -> bool {
    a & b == b
}

pub const READ_BIT: u32 = 0x1;
pub const WRITE_BIT: u32 = 0x2;
pub const EXECUTE_BIT: u32 = 0x4;
pub const DELEGATE_BIT: u32 = 0x8;
pub const SPAWN_BIT: u32 = 0x10;
pub const KILL_BIT: u32 = 0x20;
pub const SUBSCRIBE_BIT: u32 = 0x40;
pub const PUBLISH_BIT: u32 = 0x80;
pub const CONNECT_BIT: u32 = 0x100;

/// The names under which the rights are shown, in display order.
pub open spec fn flag_names() -> Seq<Seq<char>> {
    seq![
        seq!['R'], seq!['W'], seq!['X'], seq!['D'], seq!['S', 'P', 'A', 'W', 'N'], seq!['K', 'I', 'L', 'L'],
        seq!['S', 'U', 'B'], seq!['P', 'U', 'B'], seq!['C', 'O', 'N', 'N'],
    ]
}

/// The bits of the rights, in display order.
pub open spec fn flag_bits() -> Seq<u32> {
    seq![READ_BIT, WRITE_BIT, EXECUTE_BIT, DELEGATE_BIT, SPAWN_BIT, KILL_BIT, SUBSCRIBE_BIT, PUBLISH_BIT, CONNECT_BIT]
}

/// The names of the first `n` rights that `bits` holds.
pub open spec fn held_names(bits: u32, n: nat) -> Seq<Seq<char>>
    decreases n,
{
    if n == 0 {
        seq![]
    } else {
        let before = held_names(bits, (n - 1) as nat);
        if bits_contain(bits, flag_bits()[n - 1]) {
            before.push(flag_names()[n - 1])
        } else {
            before
        }
    }
}

/// `parts` joined by `|`.
pub open spec fn join_bar(parts: Seq<Seq<char>>) -> Seq<char>
    decreases parts.len(),
{
    if parts.len() == 0 {
        seq![]
    } else if parts.len() == 1 {
        parts[0]
    } else {
        join_bar(parts.drop_last()) + seq!['|'] + parts.last()
    }
}

/// How a set of rights is shown: `[NONE]` when empty, else the names of the rights held,
/// joined by `|`, in brackets.
pub open spec fn permissions_text(bits: u32) -> Seq<char> {
    if bits == 0 {
        seq!['[', 'N', 'O', 'N', 'E', ']']
    } else {
        seq!['['] + join_bar(held_names(bits, 9)) + seq![']']
    }
}

impl PermissionBits {
    /// No rights at all.
    pub fn none() -> (p: Self)
        ensures p@ == 0,
    {
        PermissionBits(0)
    }

    pub fn read() -> (p: Self)
        ensures p@ == READ_BIT,
    {
        PermissionBits(READ_BIT)
    }

    pub fn write() -> (p: Self)
        ensures p@ == WRITE_BIT,
    {
        PermissionBits(WRITE_BIT)
    }

    pub fn execute() -> (p: Self)
        ensures p@ == EXECUTE_BIT,
    {
        PermissionBits(EXECUTE_BIT)
    }

    pub fn delegate() -> (p: Self)
        ensures p@ == DELEGATE_BIT,
    {
        PermissionBits(DELEGATE_BIT)
    }

    pub fn spawn() -> (p: Self)
        ensures p@ == SPAWN_BIT,
    {
        PermissionBits(SPAWN_BIT)
    }

    pub fn kill() -> (p: Self)
        ensures p@ == KILL_BIT,
    {
        PermissionBits(KILL_BIT)
    }

    pub fn subscribe() -> (p: Self)
        ensures p@ == SUBSCRIBE_BIT,
    {
        PermissionBits(SUBSCRIBE_BIT)
    }

    pub fn publish() -> (p: Self)
        ensures p@ == PUBLISH_BIT,
    {
        PermissionBits(PUBLISH_BIT)
    }

    pub fn connect() -> (p: Self)
        ensures p@ == CONNECT_BIT,
    {
        PermissionBits(CONNECT_BIT)
    }

    /// Every right.
    pub fn all() -> (p: Self)
        ensures p@ == 0xFFFF_FFFFu32,
    {
        PermissionBits(0xFFFF_FFFF)
    }

    /// Every bit of `other` is set in `self`.
    pub fn contains(self, other: Self) -> (r: bool)
        ensures
            r == bits_contain(self@, other@),
    {
        (self.0 & other.0) == other.0
    }

    pub fn union(self, other: Self) -> (r: Self)
        ensures
            r@ == self@ | other@,
    {
        PermissionBits(self.0 | other.0)
    }

    pub fn intersect(self, other: Self) -> (r: Self)
        ensures
            r@ == self@ & other@,
    {
        PermissionBits(self.0 & other.0)
    }

    /// Delegating `subset` is allowed when `self` holds DELEGATE and every bit of `subset`.
    pub fn can_delegate_to(self, subset: Self) -> (r: bool)
        ensures
            r == (bits_contain(self@, DELEGATE_BIT) && bits_contain(self@, subset@)),
    {
        self.contains(PermissionBits(DELEGATE_BIT)) && self.contains(subset)
    }

    pub fn raw(self) -> (r: u32)
        ensures
            r == self@,
    {
        self.0
    }

    /// The rights as text, such as `[R|W|D]`.
    pub fn to_string(&self) -> (s: String)
        ensures
            s@ == permissions_text(self@),
    {
        if self.0 == 0 {
            let s = String::from_str("[NONE]");
            proof {
                reveal_strlit("[NONE]");
            }
            return s;
        }
        let names: [&str; 9] = ["R", "W", "X", "D", "SPAWN", "KILL", "SUB", "PUB", "CONN"];
        let bits: [u32; 9] = [
            READ_BIT, WRITE_BIT, EXECUTE_BIT, DELEGATE_BIT, SPAWN_BIT, KILL_BIT, SUBSCRIBE_BIT,
            PUBLISH_BIT, CONNECT_BIT,
        ];
        proof {
            reveal_strlit("R");
            reveal_strlit("W");
            reveal_strlit("X");
            reveal_strlit("D");
            reveal_strlit("SPAWN");
            reveal_strlit("KILL");
            reveal_strlit("SUB");
            reveal_strlit("PUB");
            reveal_strlit("CONN");
            reveal_strlit("[");
            reveal_strlit("|");
            reveal_strlit("]");
            assert forall|k: int| 0 <= k < 9 implies #[trigger] names@[k]@ == flag_names()[k] by {
                assert(names@[0]@ == flag_names()[0]);
                assert(names@[1]@ == flag_names()[1]);
                assert(names@[2]@ == flag_names()[2]);
                assert(names@[3]@ == flag_names()[3]);
                assert(names@[4]@ == flag_names()[4]);
                assert(names@[5]@ == flag_names()[5]);
                assert(names@[6]@ == flag_names()[6]);
                assert(names@[7]@ == flag_names()[7]);
                assert(names@[8]@ == flag_names()[8]);
            }
            assert(bits@ =~= flag_bits());
        }
        let mut s = String::from_str("[");
        let mut first = true;
        let mut i: usize = 0;
        while i < 9
            invariant
                i <= 9,
                forall|k: int| 0 <= k < 9 ==> #[trigger] names@[k]@ == flag_names()[k],
                bits@ == flag_bits(),
                first == (held_names(self@, i as nat).len() == 0),
                s@ == seq!['['] + join_bar(held_names(self@, i as nat)),
            decreases 9 - i,
        {
            let name = names[i];
            let held = self.contains(PermissionBits(bits[i]));
            proof {
                assert(name@ == flag_names()[i as int]);
            }
            if held {
                let ghost before = held_names(self@, i as nat);
                if !first {
                    s.append("|");
                    proof {
                        reveal_strlit("|");
                    }
                }
                s.append(name);
                first = false;
                proof {
                    let after = before.push(name@);
                    assert(after.drop_last() =~= before);
                    assert(after.last() == name@);
                    if before.len() == 0 {
                        assert(join_bar(after) == name@);
                    } else {
                        assert(join_bar(after) == join_bar(before) + seq!['|'] + name@);
                    }
                    assert(s@ =~= seq!['['] + join_bar(after));
                }
            }
            i = i + 1;
        }
        s.append("]");
        proof {
            reveal_strlit("]");
        }
        s
    }

    pub fn from_raw(raw: u32) -> (p: Self)
        ensures
            p@ == raw,
    {
        PermissionBits(raw)
    }
}

/// Union and intersection are commutative.
pub proof fn lemma_union_intersect_commute(a: u32, b: u32)
    ensures
        a | b == b | a,
        a & b == b & a,
{
    assert(a | b == b | a) by (bit_vector);
    assert(a & b == b & a) by (bit_vector);
}

/// A union holds both operands; an intersection is held by both operands.
pub proof fn lemma_union_intersect_bounds(a: u32, b: u32)
    ensures
        bits_contain(a | b, a),
        bits_contain(a | b, b),
        bits_contain(a, a & b),
        bits_contain(b, a & b),
{
    assert((a | b) & a == a) by (bit_vector);
    assert((a | b) & b == b) by (bit_vector);
    assert(a & (a & b) == a & b) by (bit_vector);
    assert(b & (a & b) == a & b) by (bit_vector);
}

/// Containment is reflexive and transitive, and everything contains the empty set.
pub proof fn lemma_contains_order(a: u32, b: u32, c: u32)
    ensures
        bits_contain(a, a),
        bits_contain(a, 0),
        bits_contain(a, b) && bits_contain(b, c) ==> bits_contain(a, c),
{
    assert(a & a == a) by (bit_vector);
    assert(a & 0 == 0) by (bit_vector);
    assert((a & b == b && b & c == c) ==> a & c == c) by (bit_vector);
}

} // verus!
