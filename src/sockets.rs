//! The connected socket's state and the resolution of the default socket path.

use vstd::prelude::*;

use vstd::arithmetic::div_mod::lemma_mod_add_multiples_vanish;

use crate::defs::SkylaneError;

verus! {

/// Name of the display socket used when no name is configured.
pub const DEFAULT_DISPLAY_NAME: &'static str = "wayland-0";

/// `name` appended to the path `dir` as one more component, as a path buffer's `push`
/// does on Unix: an absolute `name` replaces `dir`, and a separator is added only where
/// `dir` is non-empty and does not already end in one.
pub open spec fn joined_path(dir: Seq<char>, name: Seq<char>) -> Seq<char> {
    if name.len() > 0 && name[0] == '/' {
        name
    } else if dir.len() == 0 || dir.last() == '/' {
        dir + name
    } else {
        dir + seq!['/'] + name
    }
}

/// The default socket path: the display name (or `wayland-0`) inside the runtime
/// directory, which is required.
pub open spec fn default_socket_path_spec(
    runtime_dir: Option<Seq<char>>,
    display: Option<Seq<char>>,
) -> Option<Seq<char>> {
    match runtime_dir {
        Some(dir) => Some(
            joined_path(
                dir,
                match display {
                    Some(name) => name,
                    None => DEFAULT_DISPLAY_NAME@,
                },
            ),
        ),
        None => None,
    }
}

/// Appends `name` to `dir` as one more path component.
pub fn join_path(dir: &str, name: &str) -> (r: String)
    ensures
        r@ == joined_path(dir@, name@),
{
    let name_len = name.unicode_len();
    if name_len > 0 && name.get_char(0) == '/' {
        return String::from_str(name);
    }
    let dir_len = dir.unicode_len();
    let mut path = String::from_str(dir);
    if dir_len > 0 && dir.get_char(dir_len - 1) != '/' {
        path.append("/");
        proof {
            reveal_strlit("/");
        }
    }
    path.append(name);
    path
}

/// Resolves the default socket path from the values of `XDG_RUNTIME_DIR` and
/// `WAYLAND_DISPLAY` (`None` where a variable is unset).
pub fn resolve_socket_path(runtime_dir: Option<String>, display: Option<String>) -> (r: Result<
    String,
    SkylaneError,
>)
    ensures
        runtime_dir is None <==> r is Err,
        r matches Err(e) ==> e is Other,
        r matches Ok(path) ==> Some(path@) == default_socket_path_spec(
            match runtime_dir {
                Some(d) => Some(d@),
                None => None,
            },
            match display {
                Some(n) => Some(n@),
                None => None,
            },
        ),
{
    match runtime_dir {
        None => Err(SkylaneError::Other(String::from_str("environment variable not found"))),
        Some(dir) => {
            match display {
                Some(name) => Ok(join_path(dir.as_str(), name.as_str())),
                None => Ok(join_path(dir.as_str(), DEFAULT_DISPLAY_NAME)),
            }
        },
    }
}

/// The serial that follows `serial`: one more, wrapping to zero after `u32::MAX`.
pub open spec fn next_serial_of(serial: u32) -> u32 {
    if serial == u32::MAX {
        0
    } else {
        (serial + 1) as u32
    }
}

/// The serials that `count` successive calls of `get_next_serial` return, starting from a
/// counter at `start`.
pub open spec fn serials_from(start: u32, count: nat) -> Seq<u32>
    decreases count,
{
    if count == 0 {
        Seq::empty()
    } else {
        seq![start] + serials_from(next_serial_of(start), (count - 1) as nat)
    }
}

/// Successive serials count up by one, modulo 2^32: from a fresh socket (counter at zero)
/// they are 0, 1, 2, and so on.
pub proof fn lemma_serials_count_up(start: u32, count: nat)
    ensures
        serials_from(start, count).len() == count,
        forall|i: int|
            0 <= i < count ==> #[trigger] serials_from(start, count)[i] == (start + i)
                % 0x1_0000_0000,
    decreases count,
{
    if count > 0 {
        let next = next_serial_of(start);
        lemma_serials_count_up(next, (count - 1) as nat);
        assert forall|i: int| 0 <= i < count implies #[trigger] serials_from(start, count)[i] == (
        start + i) % 0x1_0000_0000 by {
            if i > 0 {
                assert(serials_from(start, count)[i] == serials_from(next, (count - 1) as nat)[i
                    - 1]);
                if start == u32::MAX {
                    lemma_mod_add_multiples_vanish(i - 1, 0x1_0000_0000);
                }
            }
        }
    }
}

/// Connection to a peer over a local stream socket: its descriptor and the serial counter
/// used to stamp outbound events.
pub struct Socket {
    fd: i32,
    next_serial: u32,
}

impl Socket {
    /// The raw descriptor.
    pub closed spec fn fd_spec(&self) -> i32 {
        self.fd
    }

    /// The serial that the next call of `get_next_serial` returns.
    pub closed spec fn serial(&self) -> u32 {
        self.next_serial
    }

    /// Wraps the descriptor of a connected socket; the serial counter starts at zero.
    pub fn new(fd: i32) -> (r: Socket)
        ensures
            r.fd_spec() == fd,
            r.serial() == 0,
    {
        Socket { fd, next_serial: 0 }
    }

    /// Returns the raw descriptor.
    pub fn get_fd(&self) -> (r: i32)
        ensures
            r == self.fd_spec(),
    {
        self.fd
    }

    /// Returns the current serial and advances the counter, wrapping on overflow.
    pub fn get_next_serial(&mut self) -> (r: u32)
        ensures
            r == old(self).serial(),
            final(self).serial() == next_serial_of(old(self).serial()),
            final(self).fd_spec() == old(self).fd_spec(),
    {
        let serial = self.next_serial;
        self.next_serial = serial.wrapping_add(1);
        serial
    }
}

} // verus!
