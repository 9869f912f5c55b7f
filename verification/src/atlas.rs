//! The name table of a sprite atlas, and the frame orders read from it.
use crate::animation::{haxe_int_from, haxe_int_spec};
use crate::text::{chars_of, has_prefix, same_text, starts_with};
use vstd::prelude::*;

verus! {

broadcast use vstd::string::group_string_axioms;

/// The flags of one atlas frame.
#[derive(Clone, Copy, Debug, PartialEq, Eq, Structural)]
pub struct FrameFlags {
    pub rotated: bool,
    pub flip_x: bool,
    pub flip_y: bool,
    pub empty: bool,
}

/// The longest frame name, in UTF-8 bytes (2^28 - 1).
pub const NAME_LIMIT: usize = 0x0fff_ffff;

/// The length of `s` in UTF-8 bytes, as `str::len` reports it.
pub open spec fn byte_len(s: Seq<char>) -> nat {
    (vstd::utf8::encode_utf8(s).len() as usize) as nat
}

/// Number of UTF-8 bytes of all of `names`.
pub open spec fn total_bytes(names: Seq<Seq<char>>) -> nat
    decreases names.len(),
{
    if names.len() == 0 {
        0
    } else {
        total_bytes(names.drop_last()) + byte_len(names.last())
    }
}

/// Frame `i` is the first nonempty frame called `name`.
pub open spec fn is_first_named(names: Seq<Seq<char>>, flags: Seq<FrameFlags>, name: Seq<char>, i: int) -> bool {
    &&& 0 <= i < names.len()
    &&& !flags[i].empty
    &&& names[i] == name
    &&& forall|j: int| 0 <= j < i ==> !(!flags[j].empty && #[trigger] names[j] == name)
}

/// No nonempty frame is called `name`.
pub open spec fn none_named(names: Seq<Seq<char>>, flags: Seq<FrameFlags>, name: Seq<char>) -> bool {
    forall|j: int| 0 <= j < names.len() ==> !(!flags[j].empty && #[trigger] names[j] == name)
}

/// The names and flags of the frames of an atlas, in frame order. The
/// names together stay within 32-bit byte offsets.
pub struct FrameNames {
    names: Vec<String>,
    flags: Vec<FrameFlags>,
    text_bytes: usize,
}

impl FrameNames {
    /// The frame names.
    pub closed spec fn names(&self) -> Seq<Seq<char>> {
        self.names@.map_values(|s: String| s@)
    }

    /// The frame flags.
    pub closed spec fn flags(&self) -> Seq<FrameFlags> {
        self.flags@
    }

    pub closed spec fn wf(&self) -> bool {
        &&& self.names@.len() == self.flags@.len()
        &&& self.text_bytes == total_bytes(self.names())
        &&& self.text_bytes <= u32::MAX
    }

    pub fn new() -> (r: Self)
        ensures
            r.wf(),
            r.names() == Seq::<Seq<char>>::empty(),
            r.flags() == Seq::<FrameFlags>::empty(),
    {
        let r = FrameNames { names: Vec::new(), flags: Vec::new(), text_bytes: 0 };
        assert(r.names() =~= Seq::<Seq<char>>::empty());
        r
    }

    pub fn len(&self) -> (r: usize)
        requires
            self.wf(),
        ensures
            r == self.names().len(),
    {
        self.names.len()
    }

    /// The name of frame `index`, if there is one.
    pub fn name(&self, index: usize) -> (r: Option<&str>)
        requires
            self.wf(),
        ensures
            index < self.names().len() <==> r is Some,
            r matches Some(s) ==> s@ == self.names()[index as int],
    {
        if index < self.names.len() {
            Some(self.names[index].as_str())
        } else {
            None
        }
    }

    /// The flags of frame `index`.
    pub fn flags_of(&self, index: usize) -> (r: FrameFlags)
        requires
            self.wf(),
            index < self.flags().len(),
        ensures
            r == self.flags()[index as int],
    {
        self.flags[index]
    }

    /// The first nonempty frame called `name`.
    pub fn find(&self, name: &str) -> (r: Option<usize>)
        requires
            self.wf(),
        ensures
            r matches Some(i) ==> is_first_named(self.names(), self.flags(), name@, i as int),
            r is None ==> none_named(self.names(), self.flags(), name@),
    {
        let mut i: usize = 0;
        while i < self.names.len()
            invariant
                self.wf(),
                i <= self.names@.len(),
                forall|j: int| 0 <= j < i ==> !(!self.flags()[j].empty && #[trigger] self.names()[j] == name@),
            decreases self.names@.len() - i,
        {
            if !self.flags[i].empty && same_text(self.names[i].as_str(), name) {
                return Some(i);
            }
            i = i + 1;
        }
        None
    }

    /// Whether a frame called `name` would repeat a name already taken:
    /// only nonempty frames count, and only when a nonempty frame has it.
    pub fn is_duplicate(&self, name: &str, empty: bool) -> (r: bool)
        requires
            self.wf(),
        ensures
            r == (!empty && !none_named(self.names(), self.flags(), name@)),
    {
        !empty && self.find(name).is_some()
    }

    /// Appends a frame; fails, changing nothing, when the name is longer
    /// than `NAME_LIMIT` bytes or all names would outgrow 4 GiB.
    pub fn push(&mut self, name: &str, flags: FrameFlags) -> (r: Result<usize, String>)
        requires
            old(self).wf(),
        ensures
            final(self).wf(),
            r is Ok <==> (byte_len(name@) <= NAME_LIMIT
                && total_bytes(old(self).names()) + byte_len(name@) <= u32::MAX),
            r matches Ok(i) ==> {
                &&& i == old(self).names().len()
                &&& final(self).names() == old(self).names().push(name@)
                &&& final(self).flags() == old(self).flags().push(flags)
            },
            r matches Err(e) ==> {
                &&& e@ == "atlas names exceed 4 GiB"@
                &&& final(self).names() == old(self).names()
                &&& final(self).flags() == old(self).flags()
            },
    {
        let n = name.len();
        assert(n == byte_len(name@));
        if n > NAME_LIMIT || n > u32::MAX as usize - self.text_bytes {
            return Err("atlas names exceed 4 GiB".to_owned());
        }
        let i = self.names.len();
        let ghost before = self.names();
        self.names.push(name.to_owned());
        self.flags.push(flags);
        self.text_bytes = self.text_bytes + n;
        proof {
            assert(self.names() =~= before.push(name@));
            assert(self.names().drop_last() =~= before);
        }
        Ok(i)
    }
}

/// Appending a frame keeps the frame that a name finds: nonempty frames
/// with a name already taken are never found, and a nonempty frame with a
/// new name is found at its own index.
pub proof fn law_first_nonempty_name_wins(
    names: Seq<Seq<char>>,
    flags: Seq<FrameFlags>,
    added: Seq<char>,
    added_flags: FrameFlags,
    query: Seq<char>,
)
    requires
        names.len() == flags.len(),
    ensures
        forall|i: int| is_first_named(names, flags, query, i) ==> is_first_named(names.push(added), flags.push(added_flags), query, i),
        none_named(names, flags, query) && !added_flags.empty && added == query ==> is_first_named(
            names.push(added),
            flags.push(added_flags),
            query,
            names.len() as int,
        ),
        none_named(names, flags, query) && (added_flags.empty || added != query) ==> none_named(
            names.push(added),
            flags.push(added_flags),
            query,
        ),
{
    let n2 = names.push(added);
    let f2 = flags.push(added_flags);
    assert forall|i: int| is_first_named(names, flags, query, i) implies is_first_named(n2, f2, query, i) by {
        assert forall|j: int| 0 <= j < i implies !(!f2[j].empty && #[trigger] n2[j] == query) by {
            assert(n2[j] == names[j]);
            assert(f2[j] == flags[j]);
        }
    }
    if none_named(names, flags, query) {
        assert forall|j: int| 0 <= j < names.len() implies !(!f2[j].empty && #[trigger] n2[j] == query) by {
            assert(n2[j] == names[j]);
            assert(f2[j] == flags[j]);
        }
    }
}

/// The absolute value of the number that follows the first `prefix_len`
/// characters of `name`, read as Haxe's `Std.parseInt` does; 0 when no
/// number follows.
pub open spec fn prefix_key(name: Seq<char>, prefix_len: int) -> u32 {
    match haxe_int_spec(name.skip(prefix_len)) {
        Some(v) => (if v < 0 { -(v as int) } else { v as int }) as u32,
        None => 0,
    }
}

/// Frame `i` comes before frame `j`: a smaller key, or the same key and an
/// earlier frame.
pub open spec fn sorts_before(names: Seq<Seq<char>>, prefix_len: int, i: u32, j: u32) -> bool {
    let ki = prefix_key(names[i as int], prefix_len);
    let kj = prefix_key(names[j as int], prefix_len);
    ki < kj || (ki == kj && i < j)
}

fn unsigned_abs(v: i32) -> (r: u32)
    ensures
        r == (if v < 0 { -(v as int) } else { v as int }),
{
    if v < 0 {
        (-(v as i64)) as u32
    } else {
        v as u32
    }
}

/// The frames whose names start with `prefix`, ordered by the number after
/// the prefix (its absolute value, 0 where there is none); frames with
/// equal numbers keep their atlas order.
pub fn prefix_order(names: &FrameNames, prefix: &str) -> (r: Vec<u32>)
    requires
        names.wf(),
        names.names().len() <= u32::MAX,
    ensures
        forall|k: int|
            0 <= k < r@.len() ==> #[trigger] r@[k] < names.names().len() && has_prefix(
                names.names()[r@[k] as int],
                prefix@,
            ),
        forall|i: int|
            0 <= i < names.names().len() && has_prefix(#[trigger] names.names()[i], prefix@) ==> r@.contains(
                i as u32,
            ),
        forall|a: int, b: int|
            0 <= a < b < r@.len() ==> sorts_before(names.names(), prefix@.len() as int, #[trigger] r@[a], #[trigger] r@[b]),
{
    let p = chars_of(prefix);
    let ghost ns = names.names();
    let ghost plen = prefix@.len() as int;
    let mut r: Vec<u32> = Vec::new();
    let mut keys: Vec<u32> = Vec::new();
    let n = names.len();
    for i in 0..n
        invariant
            names.wf(),
            ns == names.names(),
            n == ns.len(),
            n <= u32::MAX,
            p@ == prefix@,
            plen == p@.len(),
            keys@.len() == r@.len(),
            forall|m: int| 0 <= m < r@.len() ==> #[trigger] keys@[m] == prefix_key(ns[r@[m] as int], plen),
            forall|m: int| 0 <= m < r@.len() ==> #[trigger] r@[m] < i && has_prefix(ns[r@[m] as int], prefix@),
            forall|j: int| 0 <= j < i && has_prefix(#[trigger] ns[j], prefix@) ==> r@.contains(j as u32),
            forall|a: int, b: int| 0 <= a < b < r@.len() ==> sorts_before(ns, plen, #[trigger] r@[a], #[trigger] r@[b]),
    {
        let c = match names.name(i) {
            Some(s) => chars_of(s),
            None => Vec::new(),
        };
        if starts_with(&c, &p) {
            let k: u32 = match haxe_int_from(&c, p.len()) {
                Some(v) => unsigned_abs(v),
                None => 0,
            };
            assert(k == prefix_key(ns[i as int], plen));
            let mut q: usize = 0;
            while q < r.len() && keys[q] <= k
                invariant
                    q <= r@.len(),
                    keys@.len() == r@.len(),
                    forall|m: int| 0 <= m < q ==> #[trigger] keys@[m] <= k,
                decreases r@.len() - q,
            {
                q = q + 1;
            }
            let ghost old_r = r@;
            let ghost old_keys = keys@;
            proof {
                assert forall|m: int| q <= m < old_r.len() implies #[trigger] old_keys[m] > k by {
                    if m > q {
                        assert(sorts_before(ns, plen, old_r[q as int], old_r[m]));
                    }
                }
            }
            r.insert(q, i as u32);
            keys.insert(q, k);
            proof {
                assert forall|m: int| 0 <= m < r@.len() implies #[trigger] keys@[m] == prefix_key(ns[r@[m] as int], plen) by {
                    if m < q {
                        assert(r@[m] == old_r[m] && keys@[m] == old_keys[m]);
                    } else if m > q {
                        assert(r@[m] == old_r[m - 1] && keys@[m] == old_keys[m - 1]);
                    }
                }
                assert forall|m: int| 0 <= m < r@.len() implies #[trigger] r@[m] < i + 1 && has_prefix(ns[r@[m] as int], prefix@) by {
                    if m < q {
                        assert(r@[m] == old_r[m]);
                    } else if m > q {
                        assert(r@[m] == old_r[m - 1]);
                    }
                }
                assert forall|j: int| 0 <= j < i + 1 && has_prefix(#[trigger] ns[j], prefix@) implies r@.contains(j as u32) by {
                    if j < i {
                        let m = choose|m: int| 0 <= m < old_r.len() && old_r[m] == j as u32;
                        if m < q {
                            assert(r@[m] == old_r[m]);
                        } else {
                            assert(r@[m + 1] == old_r[m]);
                        }
                    } else {
                        assert(r@[q as int] == i as u32);
                    }
                }
                assert forall|a: int, b: int| 0 <= a < b < r@.len() implies sorts_before(ns, plen, #[trigger] r@[a], #[trigger] r@[b]) by {
                    if b < q {
                        assert(r@[a] == old_r[a] && r@[b] == old_r[b]);
                    } else if b == q {
                        assert(r@[a] == old_r[a]);
                        assert(old_keys[a] <= k);
                    } else if a < q {
                        assert(r@[a] == old_r[a] && r@[b] == old_r[b - 1]);
                    } else if a == q {
                        assert(r@[b] == old_r[b - 1]);
                        assert(old_keys[b - 1] > k);
                    } else {
                        assert(r@[a] == old_r[a - 1] && r@[b] == old_r[b - 1]);
                    }
                }
            }
        }
    }
    r
}

} // verus!
