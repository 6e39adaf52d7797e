//! Splitting a written path such as `std::io::write` into its parts.
use vstd::prelude::*;
use crate::ast::Name;

verus! {

/// A `::` separator starts at position `i` of `s`.
pub open spec fn sep_at(s: Seq<char>, i: int) -> bool {
    0 <= i && i + 1 < s.len() && s[i] == ':' && s[i + 1] == ':'
}

/// The parts of `s` from position `start` on, where no separator starts in
/// `s[start..i]`; separators are found left to right.
pub open spec fn parts_from(s: Seq<char>, start: int, i: int) -> Seq<Seq<char>>
    decreases s.len() - i,
{
    if i >= s.len() {
        seq![s.subrange(start, s.len() as int)]
    } else if sep_at(s, i) {
        seq![s.subrange(start, i)] + parts_from(s, i + 2, i + 2)
    } else {
        parts_from(s, start, i + 1)
    }
}

/// The parts of a written path.
pub open spec fn split_path(s: Seq<char>) -> Seq<Seq<char>> {
    parts_from(s, 0, 0)
}

impl Name {
    /// The parts of the name, as character sequences.
    pub open spec fn parts_view(&self) -> Seq<Seq<char>> {
        self.parts@.map_values(|p: String| p@)
    }

    /// Splits `s` at each `::`, left to right.
    pub fn from_text(s: &str) -> (r: Name)
        ensures
            r.parts_view() == split_path(s@),
    {
        let n = s.unicode_len();
        let mut parts: Vec<String> = Vec::new();
        let mut start: usize = 0;
        let mut i: usize = 0;
        while i < n
            invariant
                n == s@.len(),
                start <= i <= n,
                parts@.map_values(|p: String| p@) + parts_from(s@, start as int, i as int)
                    == split_path(s@),
            decreases n - i,
        {
            if i + 1 < n && s.get_char(i) == ':' && s.get_char(i + 1) == ':' {
                let part = s.substring_char(start, i).to_owned();
                let ghost before = parts@.map_values(|p: String| p@);
                parts.push(part);
                assert(parts@.map_values(|p: String| p@) == before.push(part@));
                assert(parts_from(s@, start as int, i as int) == seq![part@] + parts_from(
                    s@,
                    i + 2,
                    i + 2,
                ));
                assert(before.push(part@) + parts_from(s@, i + 2, i + 2) == before + (seq![part@]
                    + parts_from(s@, i + 2, i + 2)));
                i = i + 2;
                start = i;
            } else {
                i = i + 1;
            }
        }
        let last = s.substring_char(start, n).to_owned();
        let ghost before = parts@.map_values(|p: String| p@);
        parts.push(last);
        assert(parts@.map_values(|p: String| p@) == before.push(last@));
        assert(parts_from(s@, start as int, i as int) == seq![last@]);
        assert(before.push(last@) == before + seq![last@]);
        Name { parts }
    }
}

} // verus!
