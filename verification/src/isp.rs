use vstd::prelude::*;

verus! {

/// The Internet service provider that operates an autonomous system.
///
/// Stored as a string column whose values are the variant names.
#[derive(Clone, Copy, Debug, PartialEq, Eq, Structural, Hash)]
pub enum ISP {
    OTHER,
    CT,
    CMCC,
    CU,
    CERNET,
    CSTNET,
    CAICT,
}

/// The text under which an ISP is stored and serialized.
pub open spec fn isp_text(isp: ISP) -> Seq<char> {
    match isp {
        ISP::OTHER => "OTHER"@,
        ISP::CT => "CT"@,
        ISP::CMCC => "CMCC"@,
        ISP::CU => "CU"@,
        ISP::CERNET => "CERNET"@,
        ISP::CSTNET => "CSTNET"@,
        ISP::CAICT => "CAICT"@,
    }
}

/// The ISP stored under `text`, if any.
pub open spec fn isp_of_text(text: Seq<char>) -> Option<ISP> {
    if text == "OTHER"@ {
        Some(ISP::OTHER)
    } else if text == "CT"@ {
        Some(ISP::CT)
    } else if text == "CMCC"@ {
        Some(ISP::CMCC)
    } else if text == "CU"@ {
        Some(ISP::CU)
    } else if text == "CERNET"@ {
        Some(ISP::CERNET)
    } else if text == "CSTNET"@ {
        Some(ISP::CSTNET)
    } else if text == "CAICT"@ {
        Some(ISP::CAICT)
    } else {
        None
    }
}

/// Whether two strings hold the same characters.
pub fn same_text(a: &str, b: &str) -> (r: bool)
    ensures
        r == (a@ == b@),
{
    let n = a.unicode_len();
    if n != b.unicode_len() {
        return false;
    }
    let mut i: usize = 0;
    while i < n
        invariant
            n == a@.len(),
            n == b@.len(),
            i <= n,
            forall|j: int| 0 <= j < i ==> a@[j] == b@[j],
        decreases n - i,
    {
        if a.get_char(i) != b.get_char(i) {
            return false;
        }
        i = i + 1;
    }
    assert(a@ =~= b@);
    true
}

impl ISP {
    /// The text under which this ISP is stored.
    pub fn as_str(&self) -> (r: &'static str)
        ensures
            r@ == isp_text(*self),
            *self == ISP::OTHER ==> r@ == "OTHER"@,
            *self == ISP::CT ==> r@ == "CT"@,
            *self == ISP::CMCC ==> r@ == "CMCC"@,
            *self == ISP::CU ==> r@ == "CU"@,
            *self == ISP::CERNET ==> r@ == "CERNET"@,
            *self == ISP::CSTNET ==> r@ == "CSTNET"@,
            *self == ISP::CAICT ==> r@ == "CAICT"@,
    {
        match self {
            ISP::OTHER => "OTHER",
            ISP::CT => "CT",
            ISP::CMCC => "CMCC",
            ISP::CU => "CU",
            ISP::CERNET => "CERNET",
            ISP::CSTNET => "CSTNET",
            ISP::CAICT => "CAICT",
        }
    }

    /// Reads an ISP back from its stored text; `None` for any other text.
    pub fn from_text(text: &str) -> (r: Option<ISP>)
        ensures
            r == isp_of_text(text@),
            text@ == "OTHER"@ ==> r == Some(ISP::OTHER),
            text@ == "CT"@ ==> r == Some(ISP::CT),
            text@ == "CMCC"@ ==> r == Some(ISP::CMCC),
            text@ == "CU"@ ==> r == Some(ISP::CU),
            text@ == "CERNET"@ ==> r == Some(ISP::CERNET),
            text@ == "CSTNET"@ ==> r == Some(ISP::CSTNET),
            text@ == "CAICT"@ ==> r == Some(ISP::CAICT),
    {
        proof {
            lemma_isp_text_is_variant_name();
        }
        if same_text(text, "OTHER") {
            Some(ISP::OTHER)
        } else if same_text(text, "CT") {
            Some(ISP::CT)
        } else if same_text(text, "CMCC") {
            Some(ISP::CMCC)
        } else if same_text(text, "CU") {
            Some(ISP::CU)
        } else if same_text(text, "CERNET") {
            Some(ISP::CERNET)
        } else if same_text(text, "CSTNET") {
            Some(ISP::CSTNET)
        } else if same_text(text, "CAICT") {
            Some(ISP::CAICT)
        } else {
            None
        }
    }
}

/// The ISP recorded for a network whose operator is not recognised.
impl Default for ISP {
    fn default() -> (r: ISP)
        ensures
            r == ISP::OTHER,
    {
        ISP::OTHER
    }
}

/// Reading back the stored text of an ISP gives that ISP: the stored form
/// loses nothing, and no two ISPs share a stored text.
pub proof fn lemma_isp_text_round_trip(isp: ISP)
    ensures
        isp_of_text(isp_text(isp)) == Some(isp),
{
    reveal_strlit("OTHER");
    reveal_strlit("CT");
    reveal_strlit("CMCC");
    reveal_strlit("CU");
    reveal_strlit("CERNET");
    reveal_strlit("CSTNET");
    reveal_strlit("CAICT");
    assert("OTHER"@.len() == 5 && "CT"@.len() == 2 && "CMCC"@.len() == 4 && "CU"@.len() == 2);
    assert("CERNET"@.len() == 6 && "CSTNET"@.len() == 6 && "CAICT"@.len() == 5);
    assert("CT"@[1] != "CU"@[1]);
    assert("CERNET"@[1] != "CSTNET"@[1]);
    assert("OTHER"@[0] != "CAICT"@[0]);
}

/// Any text that reads back as an ISP is exactly that ISP's stored text.
pub proof fn lemma_isp_text_only(text: Seq<char>)
    ensures
        isp_of_text(text) matches Some(isp) ==> isp_text(isp) == text,
{
}

/// The stored text of each ISP is its variant name, and each variant name
/// reads back as that ISP.
pub proof fn lemma_isp_text_is_variant_name()
    ensures
        isp_text(ISP::OTHER) == "OTHER"@,
        isp_text(ISP::CT) == "CT"@,
        isp_text(ISP::CMCC) == "CMCC"@,
        isp_text(ISP::CU) == "CU"@,
        isp_text(ISP::CERNET) == "CERNET"@,
        isp_text(ISP::CSTNET) == "CSTNET"@,
        isp_text(ISP::CAICT) == "CAICT"@,
        isp_of_text("OTHER"@) == Some(ISP::OTHER),
        isp_of_text("CT"@) == Some(ISP::CT),
        isp_of_text("CMCC"@) == Some(ISP::CMCC),
        isp_of_text("CU"@) == Some(ISP::CU),
        isp_of_text("CERNET"@) == Some(ISP::CERNET),
        isp_of_text("CSTNET"@) == Some(ISP::CSTNET),
        isp_of_text("CAICT"@) == Some(ISP::CAICT),
{
    lemma_isp_text_round_trip(ISP::OTHER);
    lemma_isp_text_round_trip(ISP::CT);
    lemma_isp_text_round_trip(ISP::CMCC);
    lemma_isp_text_round_trip(ISP::CU);
    lemma_isp_text_round_trip(ISP::CERNET);
    lemma_isp_text_round_trip(ISP::CSTNET);
    lemma_isp_text_round_trip(ISP::CAICT);
}

} // verus!
