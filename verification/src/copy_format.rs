//! Copy formats: which notation of a picked colour goes to the clipboard,
//! and the address of the "copied" toast that shows it.

use vstd::prelude::*;
use crate::cmyk::cmyk_text;
use crate::color::{hex_text, hex_text_reads_back, rgb_text};
use crate::hsl::hsl_text;
use crate::sample::{describes, SampleColor};
use crate::text::{hex2, hex_digit_value, lemma_hex2_round_trip, push_hex2, str_equals};

verus! {

/// The notation copied to the clipboard when a colour is picked.
#[derive(Clone, Copy, PartialEq, Eq, Debug)]
pub enum CopyFormat {
    Hex,
    HexWithHash,
    Rgb,
    Hsl,
    Cmyk,
}

impl Default for CopyFormat {
    fn default() -> (f: CopyFormat)
        ensures
            f == CopyFormat::Hex,
    {
        CopyFormat::Hex
    }
}

/// The label a format is shown under.
pub open spec fn format_label(f: CopyFormat) -> Seq<char> {
    match f {
        CopyFormat::Hex | CopyFormat::HexWithHash => "HEX"@,
        CopyFormat::Rgb => "RGB"@,
        CopyFormat::Hsl => "HSL"@,
        CopyFormat::Cmyk => "CMYK"@,
    }
}

/// The word a format is stored under in the settings file.
pub open spec fn format_setting_name(f: CopyFormat) -> Seq<char> {
    match f {
        CopyFormat::Hex => "hex"@,
        CopyFormat::HexWithHash => "hexwithhash"@,
        CopyFormat::Rgb => "rgb"@,
        CopyFormat::Hsl => "hsl"@,
        CopyFormat::Cmyk => "cmyk"@,
    }
}

/// `s` without its leading `#` characters.
pub open spec fn trim_leading_hash(s: Seq<char>) -> Seq<char>
    decreases s.len(),
{
    if s.len() > 0 && s[0] == '#' {
        trim_leading_hash(s.drop_first())
    } else {
        s
    }
}

/// `s` with its lower-case ASCII letters in upper case.
pub open spec fn ascii_upper(s: Seq<char>) -> Seq<char> {
    s.map_values(|ch: char| if 'a' <= ch && ch <= 'z' { ((ch as int) - 32) as char } else { ch })
}

/// The text a format copies from a sampled colour.
pub open spec fn copied_text(f: CopyFormat, c: &SampleColor) -> Seq<char> {
    match f {
        CopyFormat::Hex => trim_leading_hash(c.hex@),
        CopyFormat::HexWithHash => c.hex@,
        CopyFormat::Rgb => c.rgb@,
        CopyFormat::Hsl => c.hsl@,
        CopyFormat::Cmyk => c.cmyk@,
    }
}

proof fn lemma_trim_skip(s: Seq<char>, k: int)
    requires
        0 <= k <= s.len(),
        forall|j: int| 0 <= j < k ==> s[j] == '#',
    ensures
        trim_leading_hash(s) == trim_leading_hash(s.subrange(k, s.len() as int)),
    decreases k,
{
    if k > 0 {
        assert(s.drop_first().subrange(k - 1, s.drop_first().len() as int) =~= s.subrange(k, s.len() as int));
        lemma_trim_skip(s.drop_first(), k - 1);
    } else {
        assert(s.subrange(0, s.len() as int) =~= s);
    }
}

impl CopyFormat {
    /// The label this format is shown under.
    pub fn label(self) -> (s: &'static str)
        ensures
            s@ == format_label(self),
    {
        match self {
            CopyFormat::Hex | CopyFormat::HexWithHash => "HEX",
            CopyFormat::Rgb => "RGB",
            CopyFormat::Hsl => "HSL",
            CopyFormat::Cmyk => "CMYK",
        }
    }

    /// The text this format copies from a sampled colour; plain HEX drops the `#`.
    pub fn value<'a>(self, color: &'a SampleColor) -> (s: &'a str)
        ensures
            s@ == copied_text(self, color),
    {
        match self {
            CopyFormat::Hex => {
                let h = color.hex.as_str();
                let n = h.unicode_len();
                let mut k: usize = 0;
                while k < n && h.get_char(k) == '#'
                    invariant
                        n == h@.len(),
                        k <= n,
                        forall|j: int| 0 <= j < k ==> h@[j] == '#',
                    decreases n - k,
                {
                    k += 1;
                }
                proof {
                    lemma_trim_skip(h@, k as int);
                    let rest = h@.subrange(k as int, n as int);
                    assert(rest.len() == 0 || rest[0] != '#');
                }
                h.substring_char(k, n)
            },
            CopyFormat::HexWithHash => color.hex.as_str(),
            CopyFormat::Rgb => color.rgb.as_str(),
            CopyFormat::Hsl => color.hsl.as_str(),
            CopyFormat::Cmyk => color.cmyk.as_str(),
        }
    }

    /// The word this format is stored under in the settings file.
    pub fn setting_name(self) -> (s: &'static str)
        ensures
            s@ == format_setting_name(self),
    {
        match self {
            CopyFormat::Hex => "hex",
            CopyFormat::HexWithHash => "hexwithhash",
            CopyFormat::Rgb => "rgb",
            CopyFormat::Hsl => "hsl",
            CopyFormat::Cmyk => "cmyk",
        }
    }

    /// The format stored under `name` in the settings file, if any.
    pub fn from_setting_name(name: &str) -> (f: Option<CopyFormat>)
        ensures
            f matches Some(g) ==> format_setting_name(g) == name@,
            f is None ==> forall|g: CopyFormat| format_setting_name(g) != name@,
    {
        if str_equals(name, "hex") {
            Some(CopyFormat::Hex)
        } else if str_equals(name, "hexwithhash") {
            Some(CopyFormat::HexWithHash)
        } else if str_equals(name, "rgb") {
            Some(CopyFormat::Rgb)
        } else if str_equals(name, "hsl") {
            Some(CopyFormat::Hsl)
        } else if str_equals(name, "cmyk") {
            Some(CopyFormat::Cmyk)
        } else {
            None
        }
    }
}

/// Each byte written as `%XX` in upper-case hexadecimal.
pub open spec fn percent_encode(bytes: Seq<u8>) -> Seq<char>
    decreases bytes.len(),
{
    if bytes.len() == 0 {
        Seq::empty()
    } else {
        percent_encode(bytes.drop_last()) + seq!['%'] + hex2(bytes.last())
    }
}

/// The address of the toast that confirms a copy:
/// `toast.html?format=LABEL&value=` followed by the percent-encoded UTF-8 of the value.
pub open spec fn toast_url(f: CopyFormat, value: Seq<char>) -> Seq<char> {
    "toast.html?format="@ + format_label(f) + "&value="@ + percent_encode(
        vstd::utf8::encode_utf8(value),
    )
}

/// The address of the toast that shows the copied format and value.
pub fn copied_toast_url(format: CopyFormat, value: &str) -> (url: String)
    ensures
        url@ == toast_url(format, value@),
{
    let bytes = value.as_bytes();
    let mut url = String::from_str("toast.html?format=");
    url.append(format.label());
    url.append("&value=");
    let ghost head = url@;
    let mut i: usize = 0;
    while i < bytes.len()
        invariant
            i <= bytes@.len(),
            url@ == head + percent_encode(bytes@.take(i as int)),
        decreases bytes@.len() - i,
    {
        proof { reveal_strlit("%"); }
        url.append("%");
        push_hex2(&mut url, bytes[i]);
        proof {
            assert(bytes@.take(i + 1).drop_last() =~= bytes@.take(i as int));
        }
        i += 1;
    }
    assert(bytes@.take(bytes@.len() as int) =~= bytes@);
    url
}


/// Each `%XX` group read back as the byte it encodes.
pub open spec fn percent_decode(s: Seq<char>) -> Seq<u8>
    decreases s.len(),
{
    if s.len() < 3 {
        Seq::empty()
    } else {
        percent_decode(s.take(s.len() - 3)).push(
            (hex_digit_value(s[s.len() - 2]) * 16 + hex_digit_value(s[s.len() - 1])) as u8,
        )
    }
}

/// Percent-encoding loses nothing: decoding gives back the bytes.
pub proof fn percent_encoding_reads_back(bytes: Seq<u8>)
    ensures
        percent_decode(percent_encode(bytes)) == bytes,
        percent_encode(bytes).len() == 3 * bytes.len(),
    decreases bytes.len(),
{
    if bytes.len() > 0 {
        let init = bytes.drop_last();
        percent_encoding_reads_back(init);
        lemma_hex2_round_trip(bytes.last());
        let e = percent_encode(bytes);
        assert(e == percent_encode(init) + seq!['%'] + hex2(bytes.last()));
        assert(e.take(e.len() - 3) =~= percent_encode(init));
        assert(e[e.len() - 2] == hex2(bytes.last())[0]);
        assert(e[e.len() - 1] == hex2(bytes.last())[1]);
        assert(init.push(bytes.last()) =~= bytes);
    }
}

/// The toast shows the copied value: the part after `&value=` decodes to the
/// value's UTF-8 bytes.
pub proof fn toast_url_carries_the_value(f: CopyFormat, value: Seq<char>)
    ensures
        ({
            let url = toast_url(f, value);
            let head = "toast.html?format="@ + format_label(f) + "&value="@;
            &&& url.subrange(0, head.len() as int) == head
            &&& percent_decode(url.subrange(head.len() as int, url.len() as int))
                == vstd::utf8::encode_utf8(value)
        }),
{
    let url = toast_url(f, value);
    let head = "toast.html?format="@ + format_label(f) + "&value="@;
    let tail = percent_encode(vstd::utf8::encode_utf8(value));
    assert(url == head + tail);
    assert(url.subrange(0, head.len() as int) =~= head);
    assert(url.subrange(head.len() as int, url.len() as int) =~= tail);
    percent_encoding_reads_back(vstd::utf8::encode_utf8(value));
}

/// The label of a format names the notation it copies: it is the format's
/// setting name in upper case (both HEX forms share `HEX`), no two other
/// formats share a label, and the RGB, HSL and CMYK values copied from a
/// sample begin with their label in lower case.
pub proof fn labels_name_the_copied_notation(c: &SampleColor, r: u8, g: u8, b: u8)
    requires
        describes(c, r, g, b),
    ensures
        forall|f: CopyFormat|
            f != CopyFormat::HexWithHash ==> format_label(f) == ascii_upper(
                #[trigger] format_setting_name(f),
            ),
        format_label(CopyFormat::HexWithHash) == format_label(CopyFormat::Hex),
        forall|f: CopyFormat, h: CopyFormat|
            #[trigger] format_label(f) == #[trigger] format_label(h) ==> f == h || ((f
                == CopyFormat::Hex || f == CopyFormat::HexWithHash) && (h == CopyFormat::Hex || h
                == CopyFormat::HexWithHash)),
        ascii_upper(copied_text(CopyFormat::Rgb, c).take(3)) == format_label(CopyFormat::Rgb),
        ascii_upper(copied_text(CopyFormat::Hsl, c).take(3)) == format_label(CopyFormat::Hsl),
        ascii_upper(copied_text(CopyFormat::Cmyk, c).take(4)) == format_label(CopyFormat::Cmyk),
{
    reveal_strlit("HEX");
    reveal_strlit("RGB");
    reveal_strlit("HSL");
    reveal_strlit("CMYK");
    reveal_strlit("hex");
    reveal_strlit("rgb");
    reveal_strlit("hsl");
    reveal_strlit("cmyk");
    assert(ascii_upper("hex"@) =~= "HEX"@);
    assert(ascii_upper("rgb"@) =~= "RGB"@);
    assert(ascii_upper("hsl"@) =~= "HSL"@);
    assert(ascii_upper("cmyk"@) =~= "CMYK"@);
    assert forall|f: CopyFormat| f != CopyFormat::HexWithHash implies format_label(f) == ascii_upper(
        #[trigger] format_setting_name(f),
    ) by {
        match f {
            CopyFormat::Hex => {},
            CopyFormat::HexWithHash => {},
            CopyFormat::Rgb => {},
            CopyFormat::Hsl => {},
            CopyFormat::Cmyk => {},
        }
    }
    assert("HEX"@[0] != "RGB"@[0] && "HEX"@[1] != "HSL"@[1] && "HEX"@.len() != "CMYK"@.len());
    assert("RGB"@[0] != "HSL"@[0] && "RGB"@.len() != "CMYK"@.len() && "HSL"@.len() != "CMYK"@.len());
    assert(copied_text(CopyFormat::Rgb, c).take(3) =~= "rgb"@);
    assert(copied_text(CopyFormat::Hsl, c).take(3) =~= "hsl"@);
    assert(copied_text(CopyFormat::Cmyk, c).take(4) =~= "cmyk"@);
}

/// HEX is shown with `#` and copied without it; the other formats copy the
/// notation as shown.
pub proof fn copied_values_of_a_sample(c: &SampleColor, r: u8, g: u8, b: u8)
    requires
        describes(c, r, g, b),
    ensures
        copied_text(CopyFormat::Hex, c) == hex_text(r, g, b).drop_first(),
        copied_text(CopyFormat::Hex, c).len() == 6,
        copied_text(CopyFormat::HexWithHash, c) == hex_text(r, g, b),
        copied_text(CopyFormat::Rgb, c) == rgb_text(r, g, b),
        copied_text(CopyFormat::Hsl, c) == hsl_text(r, g, b),
        copied_text(CopyFormat::Cmyk, c) == cmyk_text(r, g, b),
{
    hex_text_reads_back(r, g, b);
    let t = hex_text(r, g, b);
    let rest = t.drop_first();
    assert(rest[0] == t[1]);
    assert(trim_leading_hash(rest) == rest);
    assert(trim_leading_hash(t) == trim_leading_hash(rest));
}

} // verus!
