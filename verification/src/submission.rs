//! Submission: the group proof in its transport form, and where it goes.

use vstd::prelude::*;
use crate::chars::chars_of;
use crate::error::Error;
use crate::record::decimal;
use crate::store::{ArtifactView, ProofArtifact};

verus! {

/// The group proof as it is sent: the backend's records of the composed
/// artifact, each a JSON text of its own, and the kind of the artifact.
#[derive(Debug, PartialEq, Eq)]
pub struct SerializedMainPod {
    pub params: String,
    pub pod_type: (usize, String),
    pub id: String,
    pub vd_set: String,
    pub data: String,
}

/// The mathematical content of a `SerializedMainPod`.
pub struct SerializedMainPodView {
    pub params: Seq<char>,
    pub pod_type: (nat, Seq<char>),
    pub id: Seq<char>,
    pub vd_set: Seq<char>,
    pub data: Seq<char>,
}

impl View for SerializedMainPod {
    type V = SerializedMainPodView;

    open spec fn view(&self) -> SerializedMainPodView {
        SerializedMainPodView {
            params: self.params@,
            pod_type: (self.pod_type.0 as nat, self.pod_type.1@),
            id: self.id@,
            vd_set: self.vd_set@,
            data: self.data@,
        }
    }
}

/// The transport form of an artifact of the given kind.
pub open spec fn transport_form(a: ArtifactView, kind: (nat, Seq<char>)) -> SerializedMainPodView {
    SerializedMainPodView {
        params: a.metadata.params,
        pod_type: kind,
        id: a.metadata.id,
        vd_set: a.metadata.vds_root,
        data: a.payload,
    }
}

/// The digit of a value below sixteen, in lower case.
pub open spec fn hex_digit(d: int) -> char {
    if d == 0 {
        '0'
    } else if d == 1 {
        '1'
    } else if d == 2 {
        '2'
    } else if d == 3 {
        '3'
    } else if d == 4 {
        '4'
    } else if d == 5 {
        '5'
    } else if d == 6 {
        '6'
    } else if d == 7 {
        '7'
    } else if d == 8 {
        '8'
    } else if d == 9 {
        '9'
    } else if d == 10 {
        'a'
    } else if d == 11 {
        'b'
    } else if d == 12 {
        'c'
    } else if d == 13 {
        'd'
    } else if d == 14 {
        'e'
    } else {
        'f'
    }
}

/// How one character stands inside a JSON string: the quotation mark and
/// the reverse solidus behind a reverse solidus, a control character as
/// `\u00` and two hexadecimal digits, any other character as it is.
pub open spec fn escaped_char(c: char) -> Seq<char> {
    let n = c as u32;
    if c == '"' {
        seq!['\\', '"']
    } else if c == '\\' {
        seq!['\\', '\\']
    } else if n < 0x20 {
        seq!['\\', 'u', '0', '0', hex_digit((n / 16) as int), hex_digit((n % 16) as int)]
    } else {
        seq![c]
    }
}

/// The characters of `s` as they stand inside a JSON string.
pub open spec fn escaped(s: Seq<char>) -> Seq<char>
    decreases s.len(),
{
    if s.len() == 0 {
        Seq::empty()
    } else {
        escaped(s.drop_last()) + escaped_char(s.last())
    }
}

/// `s` as a JSON string.
pub open spec fn json_string(s: Seq<char>) -> Seq<char> {
    seq!['"'] + escaped(s) + seq!['"']
}

/// The JSON object that is sent.
pub open spec fn json_of(pod: SerializedMainPodView) -> Seq<char> {
    "{\"params\":"@ + pod.params + ",\"podType\":["@ + decimal(pod.pod_type.0) + ","@ + json_string(
        pod.pod_type.1,
    ) + "],\"id\":"@ + pod.id + ",\"vdSet\":"@ + pod.vd_set + ",\"data\":"@ + pod.data + "}"@
}

/// The text of one hexadecimal digit.
fn hex_text(d: u32) -> (text: &'static str)
    requires
        d < 16,
    ensures
        text@ == seq![hex_digit(d as int)],
{
    proof {
        reveal_strlit("0");
        reveal_strlit("1");
        reveal_strlit("2");
        reveal_strlit("3");
        reveal_strlit("4");
        reveal_strlit("5");
        reveal_strlit("6");
        reveal_strlit("7");
        reveal_strlit("8");
        reveal_strlit("9");
        reveal_strlit("a");
        reveal_strlit("b");
        reveal_strlit("c");
        reveal_strlit("d");
        reveal_strlit("e");
        reveal_strlit("f");
    }
    let text = if d == 0 {
        "0"
    } else if d == 1 {
        "1"
    } else if d == 2 {
        "2"
    } else if d == 3 {
        "3"
    } else if d == 4 {
        "4"
    } else if d == 5 {
        "5"
    } else if d == 6 {
        "6"
    } else if d == 7 {
        "7"
    } else if d == 8 {
        "8"
    } else if d == 9 {
        "9"
    } else if d == 10 {
        "a"
    } else if d == 11 {
        "b"
    } else if d == 12 {
        "c"
    } else if d == 13 {
        "d"
    } else if d == 14 {
        "e"
    } else {
        "f"
    };
    assert(text@ =~= seq![hex_digit(d as int)]);
    text
}

/// Appends the decimal numeral of `n`.
fn push_number(out: &mut String, n: usize)
    ensures
        final(out)@ == old(out)@ + decimal(n as nat),
    decreases n,
{
    if n >= 10 {
        push_number(out, n / 10);
    }
    let d = (n % 10) as u32;
    out.append(hex_text(d));
    assert(out@ =~= old(out)@ + decimal(n as nat));
}

/// Appends `s` as a JSON string.
fn push_json_string(out: &mut String, s: &str)
    ensures
        final(out)@ == old(out)@ + json_string(s@),
{
    let cs = chars_of(s);
    out.append("\"");
    proof {
        reveal_strlit("\"");
        reveal_strlit("\\\"");
        reveal_strlit("\\\\");
        reveal_strlit("\\u00");
        assert("\""@ =~= seq!['"']);
        assert("\\\""@ =~= seq!['\\', '"']);
        assert("\\\\"@ =~= seq!['\\', '\\']);
        assert("\\u00"@ =~= seq!['\\', 'u', '0', '0']);
        assert(cs@.take(0) =~= Seq::<char>::empty());
    }
    let mut i: usize = 0;
    while i < cs.len()
        invariant
            i <= cs.len(),
            cs@ == s@,
            "\""@ == seq!['"'],
            "\\\""@ == seq!['\\', '"'],
            "\\\\"@ == seq!['\\', '\\'],
            "\\u00"@ == seq!['\\', 'u', '0', '0'],
            out@ == old(out)@ + seq!['"'] + escaped(cs@.take(i as int)),
        decreases cs.len() - i,
    {
        let c = cs[i];
        let n: u32 = c as u32;
        let ghost before = out@;
        if c == '"' {
            out.append("\\\"");
        } else if c == '\\' {
            out.append("\\\\");
        } else if n < 0x20 {
            out.append("\\u00");
            out.append(hex_text(n / 16));
            out.append(hex_text(n % 16));
        } else {
            out.append(s.substring_char(i, i + 1));
            assert(s@.subrange(i as int, i + 1) =~= seq![c]);
        }
        proof {
            assert(out@ =~= before + escaped_char(c));
            assert(cs@.take(i + 1).drop_last() =~= cs@.take(i as int));
            assert(cs@.take(i + 1).last() == c);
            assert(out@ =~= old(out)@ + seq!['"'] + escaped(cs@.take(i + 1)));
        }
        i = i + 1;
    }
    out.append("\"");
    proof {
        assert(cs@.take(i as int) =~= cs@);
        assert(out@ =~= old(out)@ + json_string(s@));
    }
}

impl SerializedMainPod {
    /// The transport form of a composed artifact of the given kind.
    pub fn from_artifact(artifact: &ProofArtifact, pod_type: (usize, String)) -> (pod:
        SerializedMainPod)
        ensures
            pod@ == transport_form(artifact@, (pod_type.0 as nat, pod_type.1@)),
    {
        SerializedMainPod {
            params: artifact.metadata.params.clone(),
            pod_type,
            id: artifact.metadata.id.clone(),
            vd_set: artifact.metadata.vds_root.clone(),
            data: artifact.payload.clone(),
        }
    }

    /// Writes the JSON object that is sent as the body of the request.
    pub fn to_json(&self) -> (text: String)
        ensures
            text@ == json_of(self@),
    {
        let mut out = String::from_str("{\"params\":");
        out.append(self.params.as_str());
        out.append(",\"podType\":[");
        push_number(&mut out, self.pod_type.0);
        out.append(",");
        push_json_string(&mut out, self.pod_type.1.as_str());
        out.append("],\"id\":");
        out.append(self.id.as_str());
        out.append(",\"vdSet\":");
        out.append(self.vd_set.as_str());
        out.append(",\"data\":");
        out.append(self.data.as_str());
        out.append("}");
        assert(out@ =~= json_of(self@));
        out
    }
}

/// The endpoint that a run submits to: the configured one, or the local
/// default.
pub open spec fn endpoint_of(configured: Option<Seq<char>>) -> Seq<char> {
    match configured {
        Some(address) => address,
        None => "http://127.0.0.1:8080"@,
    }
}

/// Chooses the endpoint to submit to.
pub fn endpoint(configured: Option<String>) -> (address: String)
    ensures
        address@ == endpoint_of(
            match configured {
                Some(a) => Some(a@),
                None => None,
            },
        ),
{
    match configured {
        Some(address) => address,
        None => "http://127.0.0.1:8080".to_owned(),
    }
}

/// What became of a submission: a request that was not issued fails the
/// run, and is not tried again.
pub fn submission_result(issued: bool) -> (r: Result<(), Error>)
    ensures
        r == (if issued {
            Ok::<(), Error>(())
        } else {
            Err::<(), Error>(Error::SubmissionTransport)
        }),
{
    if issued {
        Ok(())
    } else {
        Err(Error::SubmissionTransport)
    }
}

} // verus!
