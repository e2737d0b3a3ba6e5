//! Where chat avatars are cached on disk.

use vstd::prelude::*;
use crate::text::{chars_of, push_all, push_char};

verus! {

/// Cache for chat avatars: one JPEG file per chat, in one directory.
#[derive(Clone, Debug)]
pub struct AvatarCache {
    /// Directory where avatars are stored.
    pub cache_dir: String,
}

/// Characters that cannot stand in a file name on common systems.
pub open spec fn is_unsafe_char(c: char) -> bool {
    c == '/' || c == '\\' || c == ':' || c == '*' || c == '?' || c == '"' || c == '<' || c == '>'
        || c == '|'
}

/// The identifier with every unsafe character replaced by `_`.
pub open spec fn sanitized(jid: Seq<char>) -> Seq<char> {
    Seq::new(jid.len(), |i: int| if is_unsafe_char(jid[i]) { '_' } else { jid[i] })
}

/// Path of the avatar of `jid` under `dir`: the directory, a `/` unless it is
/// empty or already ends with one, the sanitized identifier and `.jpg`.
pub open spec fn avatar_path(dir: Seq<char>, jid: Seq<char>) -> Seq<char> {
    let sep = if dir.len() == 0 || dir.last() == '/' {
        Seq::<char>::empty()
    } else {
        seq!['/']
    };
    dir + sep + sanitized(jid) + ".jpg"@
}

fn is_unsafe(c: char) -> (r: bool)
    ensures
        r == is_unsafe_char(c),
{
    c == '/' || c == '\\' || c == ':' || c == '*' || c == '?' || c == '"' || c == '<' || c == '>'
        || c == '|'
}

impl AvatarCache {
    /// A cache whose avatars live in `cache_dir`.
    pub fn in_dir(cache_dir: String) -> (r: AvatarCache)
        ensures
            r.cache_dir == cache_dir,
    {
        AvatarCache { cache_dir }
    }

    /// Get the path for a cached avatar.
    pub fn get_avatar_path(&self, jid: &str) -> (r: String)
        ensures
            r@ == avatar_path(self.cache_dir@, jid@),
    {
        let dir = chars_of(self.cache_dir.as_str());
        let mut r = self.cache_dir.clone();
        if dir.len() > 0 && dir[dir.len() - 1] != '/' {
            push_char(&mut r, '/');
        }
        let ghost base = r@;
        let cs = chars_of(jid);
        let mut i: usize = 0;
        while i < cs.len()
            invariant
                cs@ == jid@,
                i <= cs@.len(),
                r@ == base + sanitized(jid@).subrange(0, i as int),
            decreases cs@.len() - i,
        {
            let c = if is_unsafe(cs[i]) {
                '_'
            } else {
                cs[i]
            };
            push_char(&mut r, c);
            assert(sanitized(jid@).subrange(0, i as int + 1) =~= sanitized(jid@).subrange(
                0,
                i as int,
            ).push(c));
            i = i + 1;
        }
        assert(sanitized(jid@).subrange(0, i as int) =~= sanitized(jid@));
        push_all(&mut r, ".jpg");
        assert(r@ =~= avatar_path(self.cache_dir@, jid@));
        r
    }
}

} // verus!
