use vstd::prelude::*;

verus! {

/// Whether position `i` starts a path component: the front of the path or
/// the position right after a slash.
pub open spec fn comp_start(p: Seq<u8>, i: int) -> bool {
    i == 0 || p[i - 1] == 47
}

/// Whether position `i` ends a path component: the back of the path or the
/// position right before a slash.
pub open spec fn comp_end(p: Seq<u8>, i: int) -> bool {
    i == p.len() - 1 || p[i + 1] == 47
}

/// Whether the path has a `.` component.
pub open spec fn has_dot_component(p: Seq<u8>) -> bool {
    exists|i: int|
        0 <= i < p.len() && #[trigger] p[i] == 46 && comp_start(p, i) && comp_end(p, i)
}

/// Whether the path has a `..` component.
pub open spec fn has_dotdot_component(p: Seq<u8>) -> bool {
    exists|i: int|
        0 <= i && i + 1 < p.len() && #[trigger] p[i] == 46 && p[i + 1] == 46 && comp_start(p, i)
            && comp_end(p, i + 1)
}

/// A path that stays where it is pointed: nonempty, relative, and free of
/// `..` components. Joining such a path onto a target directory can only
/// land inside that directory's tree.
pub open spec fn confined_path(p: Seq<u8>) -> bool {
    &&& p.len() > 0
    &&& p[0] != 47
    &&& !has_dotdot_component(p)
}

/// A path in normal form: confined, and also free of `.` components, empty
/// components, a trailing slash and NUL bytes. The archive writer stores
/// such a path byte for byte; anything looser it normalizes or refuses.
pub open spec fn normal_path(p: Seq<u8>) -> bool {
    &&& confined_path(p)
    &&& p[p.len() - 1] != 47
    &&& forall|i: int| 0 < i < p.len() ==> !(p[i - 1] == 47 && #[trigger] p[i] == 47)
    &&& forall|i: int| 0 <= i < p.len() ==> #[trigger] p[i] != 0
    &&& !has_dot_component(p)
}

/// Decide `confined_path` at run time.
pub fn is_confined_path(p: &Vec<u8>) -> (r: bool)
    ensures
        r == confined_path(p@),
{
    let n = p.len();
    if n == 0 || p[0] == 47 {
        return false;
    }
    let mut i: usize = 0;
    while i < n
        invariant
            n == p@.len(),
            i <= n,
            forall|j: int|
                0 <= j < i ==> !(#[trigger] p@[j] == 46 && j + 1 < n && p@[j + 1] == 46
                    && comp_start(p@, j) && comp_end(p@, j + 1)),
        decreases n - i,
    {
        if p[i] == 46 && n - i >= 2 && p[i + 1] == 46 && (i == 0 || p[i - 1] == 47) && (n - i == 2
            || p[i + 2] == 47) {
            assert(has_dotdot_component(p@));
            return false;
        }
        i += 1;
    }
    proof {
        if has_dotdot_component(p@) {
            let j = choose|j: int|
                0 <= j && j + 1 < p@.len() && #[trigger] p@[j] == 46 && p@[j + 1] == 46
                    && comp_start(p@, j) && comp_end(p@, j + 1);
            assert(!(p@[j] == 46 && j + 1 < n && p@[j + 1] == 46 && comp_start(p@, j) && comp_end(
                p@,
                j + 1,
            )));
        }
    }
    true
}

/// Whether `b` is a UTF-8 continuation byte.
pub open spec fn cont_byte(b: u8) -> bool {
    128 <= b <= 191
}

/// Whether the bytes are a well-formed UTF-8 string: the shortest-form
/// encoding ranges, surrogates and values past the last code point excluded.
pub open spec fn valid_utf8(s: Seq<u8>) -> bool
    decreases s.len(),
{
    if s.len() == 0 {
        true
    } else {
        let b0 = s[0];
        if b0 < 128 {
            valid_utf8(s.skip(1))
        } else if 194 <= b0 <= 223 {
            if s.len() < 2 {
                false
            } else {
                cont_byte(s[1]) && valid_utf8(s.skip(2))
            }
        } else if b0 == 224 {
            if s.len() < 3 {
                false
            } else {
                160 <= s[1] <= 191 && cont_byte(s[2]) && valid_utf8(s.skip(3))
            }
        } else if (225 <= b0 <= 236) || b0 == 238 || b0 == 239 {
            if s.len() < 3 {
                false
            } else {
                cont_byte(s[1]) && cont_byte(s[2]) && valid_utf8(s.skip(3))
            }
        } else if b0 == 237 {
            if s.len() < 3 {
                false
            } else {
                128 <= s[1] <= 159 && cont_byte(s[2]) && valid_utf8(s.skip(3))
            }
        } else if b0 == 240 {
            if s.len() < 4 {
                false
            } else {
                144 <= s[1] <= 191 && cont_byte(s[2]) && cont_byte(s[3]) && valid_utf8(s.skip(4))
            }
        } else if 241 <= b0 <= 243 {
            if s.len() < 4 {
                false
            } else {
                cont_byte(s[1]) && cont_byte(s[2]) && cont_byte(s[3]) && valid_utf8(s.skip(4))
            }
        } else if b0 == 244 {
            if s.len() < 4 {
                false
            } else {
                128 <= s[1] <= 143 && cont_byte(s[2]) && cont_byte(s[3]) && valid_utf8(s.skip(4))
            }
        } else {
            false
        }
    }
}

/// A pure-ASCII byte string is well-formed UTF-8.
pub proof fn lemma_ascii_valid_utf8(s: Seq<u8>)
    requires
        forall|i: int| 0 <= i < s.len() ==> #[trigger] s[i] < 128,
    ensures
        valid_utf8(s),
    decreases s.len(),
{
    if s.len() > 0 {
        lemma_ascii_valid_utf8(s.skip(1));
    }
}

/// Decide `valid_utf8` at run time.
pub fn is_valid_utf8(v: &Vec<u8>) -> (r: bool)
    ensures
        r == valid_utf8(v@),
{
    let n = v.len();
    let mut i: usize = 0;
    proof {
        assert(v@.skip(0) =~= v@);
    }
    while i < n
        invariant
            n == v@.len(),
            i <= n,
            valid_utf8(v@) == valid_utf8(v@.skip(i as int)),
        decreases n - i,
    {
        let ghost rest = v@.skip(i as int);
        proof {
            assert(rest[0] == v@[i as int]);
        }
        let b0 = v[i];
        if b0 < 128 {
            proof {
                assert(rest.skip(1) =~= v@.skip(i + 1));
            }
            i += 1;
        } else if 194 <= b0 && b0 <= 223 {
            if n - i < 2 || !(128 <= v[i + 1] && v[i + 1] <= 191) {
                return false;
            }
            proof {
                assert(rest[1] == v@[i + 1]);
                assert(rest.skip(2) =~= v@.skip(i + 2));
            }
            i += 2;
        } else if b0 == 224 {
            if n - i < 3 || !(160 <= v[i + 1] && v[i + 1] <= 191) || !(128 <= v[i + 2] && v[i + 2]
                <= 191) {
                return false;
            }
            proof {
                assert(rest[1] == v@[i + 1] && rest[2] == v@[i + 2]);
                assert(rest.skip(3) =~= v@.skip(i + 3));
            }
            i += 3;
        } else if (225 <= b0 && b0 <= 236) || b0 == 238 || b0 == 239 {
            if n - i < 3 || !(128 <= v[i + 1] && v[i + 1] <= 191) || !(128 <= v[i + 2] && v[i + 2]
                <= 191) {
                return false;
            }
            proof {
                assert(rest[1] == v@[i + 1] && rest[2] == v@[i + 2]);
                assert(rest.skip(3) =~= v@.skip(i + 3));
            }
            i += 3;
        } else if b0 == 237 {
            if n - i < 3 || !(128 <= v[i + 1] && v[i + 1] <= 159) || !(128 <= v[i + 2] && v[i + 2]
                <= 191) {
                return false;
            }
            proof {
                assert(rest[1] == v@[i + 1] && rest[2] == v@[i + 2]);
                assert(rest.skip(3) =~= v@.skip(i + 3));
            }
            i += 3;
        } else if b0 == 240 {
            if n - i < 4 || !(144 <= v[i + 1] && v[i + 1] <= 191) || !(128 <= v[i + 2] && v[i + 2]
                <= 191) || !(128 <= v[i + 3] && v[i + 3] <= 191) {
                return false;
            }
            proof {
                assert(rest[1] == v@[i + 1] && rest[2] == v@[i + 2] && rest[3] == v@[i + 3]);
                assert(rest.skip(4) =~= v@.skip(i + 4));
            }
            i += 4;
        } else if 241 <= b0 && b0 <= 243 {
            if n - i < 4 || !(128 <= v[i + 1] && v[i + 1] <= 191) || !(128 <= v[i + 2] && v[i + 2]
                <= 191) || !(128 <= v[i + 3] && v[i + 3] <= 191) {
                return false;
            }
            proof {
                assert(rest[1] == v@[i + 1] && rest[2] == v@[i + 2] && rest[3] == v@[i + 3]);
                assert(rest.skip(4) =~= v@.skip(i + 4));
            }
            i += 4;
        } else if b0 == 244 {
            if n - i < 4 || !(128 <= v[i + 1] && v[i + 1] <= 143) || !(128 <= v[i + 2] && v[i + 2]
                <= 191) || !(128 <= v[i + 3] && v[i + 3] <= 191) {
                return false;
            }
            proof {
                assert(rest[1] == v@[i + 1] && rest[2] == v@[i + 2] && rest[3] == v@[i + 3]);
                assert(rest.skip(4) =~= v@.skip(i + 4));
            }
            i += 4;
        } else {
            return false;
        }
    }
    proof {
        assert(v@.skip(n as int) =~= Seq::<u8>::empty());
    }
    true
}

} // verus!
