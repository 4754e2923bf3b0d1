//! Where a payload goes: a file named after the track, or the input of a
//! helper program together with the track's description.
use vstd::prelude::*;
use vstd::string::StringExecFns;

verus! {

/// `parts` joined with `sep` between each two.
pub open spec fn joined(parts: Seq<Seq<char>>, sep: Seq<char>) -> Seq<char>
    decreases parts.len(),
{
    if parts.len() == 0 {
        Seq::empty()
    } else if parts.len() == 1 {
        parts[0]
    } else {
        joined(parts.drop_last(), sep) + sep + parts.last()
    }
}

/// The text of each string of `v`.
pub open spec fn texts(v: Seq<String>) -> Seq<Seq<char>> {
    v.map_values(|s: String| s@)
}

/// The name of the file a track is written to: the artists joined by `, `,
/// then ` - `, the track's name and `.ogg`.
pub open spec fn file_name_of(artists: Seq<Seq<char>>, track_name: Seq<char>) -> Seq<char> {
    joined(artists, seq![',', ' ']) + seq![' ', '-', ' '] + track_name + seq!['.', 'o', 'g', 'g']
}

/// The arguments a helper program is started with: the track's identifier,
/// its name, the album's name and release date, then each artist.
pub open spec fn helper_args_of(
    id: Seq<char>,
    track_name: Seq<char>,
    album_name: Seq<char>,
    album_date: Seq<char>,
    artists: Seq<Seq<char>>,
) -> Seq<Seq<char>> {
    seq![id, track_name, album_name, album_date] + artists
}

/// The name of the file that a track by `artists` named `track_name` is
/// written to.
pub fn output_file_name(artists: &Vec<String>, track_name: &str) -> (r: String)
    ensures
        r@ == file_name_of(texts(artists@), track_name@),
{
    let mut name = String::new();
    let mut i: usize = 0;
    while i < artists.len()
        invariant
            i <= artists@.len(),
            name@ == joined(texts(artists@.subrange(0, i as int)), seq![',', ' ']),
        decreases artists@.len() - i,
    {
        let ghost before = texts(artists@.subrange(0, i as int));
        let ghost prev = name@;
        if i > 0 {
            name.append(", ");
        }
        name.append(artists[i].as_str());
        proof {
            let after = texts(artists@.subrange(0, i + 1));
            assert(after.drop_last() =~= before);
            assert(after.last() == artists@[i as int]@);
            reveal_strlit(", ");
            if i == 0 {
                assert(name@ =~= after[0]);
            } else {
                assert(name@ =~= prev + seq![',', ' '] + after.last());
            }
        }
        i = i + 1;
    }
    proof {
        reveal_strlit(" - ");
        reveal_strlit(".ogg");
    }
    assert(artists@.subrange(0, artists@.len() as int) =~= artists@);
    name.append(" - ");
    name.append(track_name);
    name.append(".ogg");
    name
}

/// The arguments that a helper program is started with for a track.
pub fn helper_args(
    id: &str,
    track_name: &str,
    album_name: &str,
    album_date: &str,
    artists: &Vec<String>,
) -> (r: Vec<String>)
    ensures
        texts(r@) == helper_args_of(id@, track_name@, album_name@, album_date@, texts(artists@)),
{
    let mut args: Vec<String> = Vec::new();
    args.push(id.to_owned());
    args.push(track_name.to_owned());
    args.push(album_name.to_owned());
    args.push(album_date.to_owned());
    let mut i: usize = 0;
    while i < artists.len()
        invariant
            i <= artists@.len(),
            texts(args@) == seq![id@, track_name@, album_name@, album_date@] + texts(
                artists@.subrange(0, i as int),
            ),
        decreases artists@.len() - i,
    {
        let ghost prev = args@;
        let a = artists[i].as_str().to_owned();
        args.push(a);
        proof {
            let head = seq![id@, track_name@, album_name@, album_date@];
            assert(texts(artists@.subrange(0, i + 1)) =~= texts(artists@.subrange(0, i as int))
                .push(artists@[i as int]@));
            assert(args@.drop_last() =~= prev);
            assert(texts(args@) =~= texts(prev).push(artists@[i as int]@));
            assert(head + texts(artists@.subrange(0, i + 1)) =~= (head + texts(
                artists@.subrange(0, i as int),
            )).push(artists@[i as int]@));
        }
        i = i + 1;
    }
    assert(artists@.subrange(0, artists@.len() as int) =~= artists@);
    args
}

/// Why the invocation cannot be served.
#[derive(Clone, Copy, Debug, PartialEq, Eq, Structural)]
pub enum UsageError {
    /// More than one argument was given.
    TooManyArguments,
}

/// The helper program named on the command line `args` (the program's own
/// name first), or `None` when payloads go to files.
pub fn helper_of(args: &Vec<String>) -> (r: Result<Option<String>, UsageError>)
    ensures
        args@.len() <= 1 ==> r matches Ok(None),
        args@.len() == 2 ==> (r matches Ok(Some(h)) && h@ == args@[1]@),
        args@.len() > 2 ==> r == Err::<Option<String>, UsageError>(UsageError::TooManyArguments),
{
    if args.len() <= 1 {
        Ok(None)
    } else if args.len() == 2 {
        Ok(Some(args[1].as_str().to_owned()))
    } else {
        Err(UsageError::TooManyArguments)
    }
}

} // verus!
