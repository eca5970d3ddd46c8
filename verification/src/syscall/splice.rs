//! The `splice` system call splice data from one pipe to another.

use vstd::prelude::*;
use crate::errno::{EResult, Errno};
use crate::file::buffer::pipe::{least, PIPE_CAPACITY};
use crate::file::open_file::{OpenFile, OpenFiles, Shared};
use crate::file::vfs::Vfs;
use crate::file::{overwritten, window, File, FileType};
use crate::process::Process;
use crate::syscall::{
    advance, advanced, can_read, can_write, description, description_file, description_handle,
    get_description, readable, untouched, writable, TRANSFER_MAX,
};

verus! {

/// The offset at which a transfer through the open file description
/// `open_file` takes place: the given one, or else the cursor of the
/// description.
pub open spec fn place(open_file: OpenFile, off: Option<u64>) -> u64 {
    match off {
        Some(off) => off,
        None => open_file.off,
    }
}

/// The number of bytes that the file `f` has to read at offset `off`.
pub open spec fn available(f: &File, off: u64) -> int {
    match f.pipe() {
        Some(queue) => queue.len() as int,
        None => if off < f.stat().size {
            f.stat().size - off
        } else {
            0
        },
    }
}

/// The error that a transfer from the file `input` to the file `output`
/// fails with before anything is transferred, if it does:
/// - `EINVAL` if neither file is a pipe, if one of them is neither a pipe
///   nor a regular file, or if both are the same file;
/// - or else `ESPIPE` if an offset is given for a pipe;
/// - or else `EBADF` if the input is not open for reading or the output
///   for writing;
/// - or else `EPIPE` if the output is a pipe and no description is open on
///   its reading end;
/// - or else `EINVAL` if the offset in the output is beyond what can be
///   counted.
pub open spec fn refusal(
    input: &File,
    output: &File,
    open_in: OpenFile,
    open_out: OpenFile,
    off_in: Option<u64>,
    off_out: Option<u64>,
) -> Option<Errno> {
    let in_pipe = input.stat().file_type == FileType::Fifo;
    let out_pipe = output.stat().file_type == FileType::Fifo;
    if (!in_pipe && !out_pipe) || (!in_pipe && input.stat().file_type != FileType::Regular) || (
    !out_pipe && output.stat().file_type != FileType::Regular) || open_in.location
        == open_out.location {
        Some(Errno::EINVAL)
    } else if (in_pipe && off_in.is_some()) || (out_pipe && off_out.is_some()) {
        Some(Errno::ESPIPE)
    } else if !readable(open_in.flags) || !writable(open_out.flags) {
        Some(Errno::EBADF)
    } else if out_pipe && output.pipe_readers() == 0 {
        Some(Errno::EPIPE)
    } else if !out_pipe && place(open_out, off_out) + TRANSFER_MAX > usize::MAX {
        Some(Errno::EINVAL)
    } else {
        None
    }
}

/// The number of bytes that a transfer of `len` bytes at most moves from the
/// file `input` to the file `output`: as many as are asked for, as the input
/// has, and as the output has room for.
pub open spec fn amount(input: &File, output: &File, off: u64, len: usize) -> int {
    let asked = least(len as int, TRANSFER_MAX as int);
    let had = least(asked, available(input, off));
    match output.pipe() {
        Some(queue) => least(had, PIPE_CAPACITY - queue.len()),
        None => had,
    }
}

/// Tells whether the open file description with handle `h` in `after` is
/// the one in `before` with its cursor `n` bytes further, if `moves` is set,
/// and the same one if not.
pub open spec fn cursor_moved(before: &OpenFiles, after: &OpenFiles, h: usize, moves: bool, n: usize) -> bool {
    after.slot(h as int) == match before.slot(h as int) {
        Some(s) => Some(
            Shared {
                open_file: OpenFile {
                    off: if moves {
                        advanced(s.open_file.off, n)
                    } else {
                        s.open_file.off
                    },
                    ..s.open_file
                },
                refs: s.refs,
            },
        ),
        None => None,
    }
}

/// The implementation of the `splice` system call: moves up to `len` bytes
/// from the file that `fd_in` is open on to the file that `fd_out` is open
/// on, one of which at least is a pipe.
///
/// `off_in` and `off_out` are the offsets to read at and to write at; if one
/// is not given, the transfer takes place at the cursor of the file
/// descriptor, which then moves on.
///
/// The bytes that are moved are the first [`amount`] bytes that the input
/// has at its offset: they leave the input if it is a pipe, and are written
/// to the output. The function returns their number.
///
/// The function fails, and changes nothing, with `EBADF` if the process has
/// not both file descriptors, or else with `ENOENT` if one of the files is
/// gone, or else as [`refusal`] tells.
pub fn splice(
    proc: &Process,
    files: &mut OpenFiles,
    vfs: &mut Vfs,
    fd_in: i32,
    off_in: Option<u64>,
    fd_out: i32,
    off_out: Option<u64>,
    len: usize,
) -> (r: EResult<usize>)
    requires
        proc.wf(),
        old(files).wf(),
        old(vfs).wf(),
    ensures
        final(files).wf(),
        final(vfs).wf(),
        final(files).total_max() == old(files).total_max(),
        final(files).total() == old(files).total(),
        forall|path: Seq<char>| #[trigger] final(vfs).lookup(path) == old(vfs).lookup(path),
        r matches Err(_) ==> untouched(old(files), final(files), old(vfs), final(vfs)),
        description(&proc.file_descriptors, old(files), fd_in as int).is_none() || description(
            &proc.file_descriptors,
            old(files),
            fd_out as int,
        ).is_none() ==> r == Err::<usize, Errno>(Errno::EBADF),
        description(&proc.file_descriptors, old(files), fd_in as int).is_some() && description(
            &proc.file_descriptors,
            old(files),
            fd_out as int,
        ).is_some() ==> ({
            let open_in = description_file(&proc.file_descriptors, old(files), fd_in as int);
            let open_out = description_file(&proc.file_descriptors, old(files), fd_out as int);
            let h_in = description_handle(&proc.file_descriptors, old(files), fd_in as int);
            let h_out = description_handle(&proc.file_descriptors, old(files), fd_out as int);
            match (old(vfs).target(open_in.location), old(vfs).target(open_out.location)) {
                (Some(input), Some(output)) => match refusal(
                    &input,
                    &output,
                    open_in,
                    open_out,
                    off_in,
                    off_out,
                ) {
                    Some(e) => r == Err::<usize, Errno>(e),
                    None => {
                        let at = place(open_in, off_in);
                        let to = place(open_out, off_out);
                        let n = amount(&input, &output, at, len);
                        let data = match input.pipe() {
                            Some(queue) => queue.subrange(0, n),
                            None => window(input.bytes()->0, at as int, n),
                        };
                        &&& r == Ok::<usize, Errno>(n as usize)
                        &&& final(vfs).target(open_in.location) matches Some(input1)
                        &&& final(vfs).target(open_out.location) matches Some(output1)
                        &&& File::same_but_data(&input, &input1)
                        &&& File::same_but_data(&output, &output1)
                        &&& input1.stat() == input.stat()
                        &&& input1.bytes() == input.bytes()
                        &&& input1.pipe() == match input.pipe() {
                            Some(queue) => Some(queue.subrange(n, queue.len() as int)),
                            None => None,
                        }
                        &&& output1.pipe() == match output.pipe() {
                            Some(queue) => Some(queue + data),
                            None => None,
                        }
                        &&& output1.bytes() == match output.bytes() {
                            Some(bytes) => if n > 0 {
                                Some(overwritten(bytes, to as int, data))
                            } else {
                                Some(bytes)
                            },
                            None => None,
                        }
                        &&& forall|k: int|
                            k != open_in.location.inode && k != open_out.location.inode
                                ==> #[trigger] final(vfs).file(k) == old(vfs).file(k)
                        &&& forall|k: int|
                            k != h_in && k != h_out ==> #[trigger] final(files).slot(k) == old(
                                files,
                            ).slot(k)
                        &&& h_in != h_out ==> cursor_moved(
                            old(files),
                            final(files),
                            h_in,
                            off_in.is_none(),
                            n as usize,
                        ) && cursor_moved(
                            old(files),
                            final(files),
                            h_out,
                            off_out.is_none(),
                            n as usize,
                        )
                    },
                },
                _ => r == Err::<usize, Errno>(Errno::ENOENT),
            }
        }),
{
    let (h_in, open_in) = match get_description(&proc.file_descriptors, files, fd_in) {
        Ok(d) => d,
        Err(e) => {
            return Err(e);
        },
    };
    let (h_out, open_out) = match get_description(&proc.file_descriptors, files, fd_out) {
        Ok(d) => d,
        Err(e) => {
            return Err(e);
        },
    };
    let at = match off_in {
        Some(off) => off,
        None => open_in.off,
    };
    let to = match off_out {
        Some(off) => off,
        None => open_out.off,
    };
    let ghost input = old(vfs).target(open_in.location);
    let ghost output = old(vfs).target(open_out.location);
    let len = {
        let input = match vfs.get_file_from_location(open_in.location) {
            Some(f) => f,
            None => {
                return Err(Errno::ENOENT);
            },
        };
        let output = match vfs.get_file_from_location(open_out.location) {
            Some(f) => f,
            None => {
                return Err(Errno::ENOENT);
            },
        };
        proof {
            vfs.lemma_file_ok(open_in.location.inode as int);
            vfs.lemma_file_ok(open_out.location.inode as int);
            input.lemma_type();
            output.lemma_type();
        }
        let input_type = input.get_type();
        let output_type = output.get_type();
        let in_is_pipe = matches!(input_type, FileType::Fifo);
        let out_is_pipe = matches!(output_type, FileType::Fifo);
        if (!in_is_pipe && !out_is_pipe) || (!in_is_pipe && !matches!(
            input_type,
            FileType::Regular
        )) || (!out_is_pipe && !matches!(output_type, FileType::Regular)) || (
        open_in.location.mountpoint_id == open_out.location.mountpoint_id
            && open_in.location.inode == open_out.location.inode) {
            return Err(Errno::EINVAL);
        }
        if in_is_pipe && off_in.is_some() {
            return Err(Errno::ESPIPE);
        }
        if out_is_pipe && off_out.is_some() {
            return Err(Errno::ESPIPE);
        }
        if !can_read(open_in.flags) || !can_write(open_out.flags) {
            return Err(Errno::EBADF);
        }
        if out_is_pipe && output.get_pipe_readers() == 0 {
            return Err(Errno::EPIPE);
        }
        if !out_is_pipe && to > (usize::MAX - TRANSFER_MAX) as u64 {
            return Err(Errno::EINVAL);
        }
        // The number of bytes to move
        let asked = if len < TRANSFER_MAX {
            len
        } else {
            TRANSFER_MAX
        };
        let had = match input.get_pipe_len() {
            Some(n) => n,
            None => {
                let size = input.get_size();
                if at < size {
                    let rest = size - at;
                    if rest > TRANSFER_MAX as u64 {
                        TRANSFER_MAX
                    } else {
                        rest as usize
                    }
                } else {
                    0
                }
            },
        };
        let had = if asked < had {
            asked
        } else {
            had
        };
        match output.get_pipe_len() {
            Some(n) => {
                let room = PIPE_CAPACITY - n;
                if had < room {
                    had
                } else {
                    room
                }
            },
            None => had,
        }
    };
    let data = match vfs.read(open_in.location, at, len) {
        Ok(data) => data,
        Err(e) => {
            return Err(e);
        },
    };
    let ghost mid = *vfs;
    if len > 0 {
        match vfs.write(open_out.location, to, &data) {
            Ok(_) => {},
            Err(e) => {
                return Err(e);
            },
        }
    }
    if off_in.is_none() {
        let mut moved = open_in;
        moved.off = advance(open_in.off, len);
        let _ = files.set(h_in, moved);
    }
    if off_out.is_none() && h_in != h_out {
        let mut moved = open_out;
        moved.off = advance(open_out.off, len);
        let _ = files.set(h_out, moved);
    }
    Ok(len)
}

} // verus!
