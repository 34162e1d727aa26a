//! Display forms.  A hash key renders as its registry label when one is
//! present, falling back to a canonical hexadecimal form; nothing is
//! cached, so a key's textual form can change as the registry changes.
//! A param renders as a one-line description of its node.

use vstd::prelude::*;

use crate::arena::ParamArena;
use crate::arena::ParamNode;
use crate::arena::SharedParam;
use crate::hash::HashKey;
use crate::labels::LabelRegistry;
use crate::labels::label_lookup;
use crate::text::dec_digits;
use crate::text::dec_signed;
use crate::text::hex_fixed;
use crate::text::push_dec;
use crate::text::push_dec_signed;
use crate::text::push_hex_fixed;
use crate::text::push_str_part;
use crate::tree::NodeV;

verus! {

/// How many hexadecimal digits the canonical form of a key uses: as many
/// as the value needs, but at least ten.
pub open spec fn key_hex_width(v: int) -> nat {
    if v < 0x100_0000_0000 {
        10
    } else if v < 0x1000_0000_0000 {
        11
    } else if v < 0x1_0000_0000_0000 {
        12
    } else if v < 0x10_0000_0000_0000 {
        13
    } else if v < 0x100_0000_0000_0000 {
        14
    } else if v < 0x1000_0000_0000_0000 {
        15
    } else {
        16
    }
}

/// The display form of a key: its label, or `0x` and the key's
/// hexadecimal digits when the registry has none.
pub open spec fn label_or_hex(es: Seq<(u64, Seq<char>)>, v: u64) -> Seq<char> {
    match label_lookup(es, v) {
        Some(l) => l,
        None => "0x"@ + hex_fixed(v as int, key_hex_width(v as int)),
    }
}

/// The one-line display form of a node.
pub open spec fn render_node(n: NodeV, es: Seq<(u64, Seq<char>)>) -> Seq<char> {
    match n {
        NodeV::Bool(b) => "param bool ("@ + (if b {
            "true"@
        } else {
            "false"@
        }) + ")"@,
        NodeV::I8(v) => "param i8 ("@ + dec_signed(v as int) + ")"@,
        NodeV::U8(v) => "param u8 ("@ + dec_digits(v as int) + ")"@,
        NodeV::I16(v) => "param i16 ("@ + dec_signed(v as int) + ")"@,
        NodeV::U16(v) => "param u16 ("@ + dec_digits(v as int) + ")"@,
        NodeV::I32(v) => "param i32 ("@ + dec_signed(v as int) + ")"@,
        NodeV::U32(v) => "param u32 ("@ + dec_digits(v as int) + ")"@,
        NodeV::FloatBits(v) => "param float (bits 0x"@ + hex_fixed(v as int, 8) + ")"@,
        NodeV::Hash(v) => "param hash ("@ + label_or_hex(es, v) + ")"@,
        NodeV::Str(s) => "param str ("@ + s + ")"@,
        NodeV::List(cs) => "param list (len = "@ + dec_digits(cs.len() as int) + ")"@,
        NodeV::Struct(ps) => "param struct (len = "@ + dec_digits(ps.len() as int) + ")"@,
    }
}

impl HashKey {
    /// The display form of the key, resolved through the registry at call
    /// time.
    pub fn render(&self, registry: &LabelRegistry) -> (r: String)
        ensures
            r@ == label_or_hex(registry.entries(), self.value),
    {
        match registry.label_of(self.value) {
            Some(l) => l,
            None => {
                let v = self.value;
                let width: u64 = if v < 0x100_0000_0000 {
                    10
                } else if v < 0x1000_0000_0000 {
                    11
                } else if v < 0x1_0000_0000_0000 {
                    12
                } else if v < 0x10_0000_0000_0000 {
                    13
                } else if v < 0x100_0000_0000_0000 {
                    14
                } else if v < 0x1000_0000_0000_0000 {
                    15
                } else {
                    16
                };
                let mut s = String::new();
                push_str_part(&mut s, "0x");
                push_hex_fixed(&mut s, v, width);
                proof {
                    assert(width as nat == key_hex_width(v as int));
                    assert(s@ =~= "0x"@ + hex_fixed(v as int, key_hex_width(v as int)));
                }
                s
            },
        }
    }
}

impl ParamArena {
    /// The one-line display form of the node at `h`; hash payloads are
    /// resolved through the registry at call time.
    pub fn render(&self, h: SharedParam, registry: &LabelRegistry) -> (r: String)
        requires
            self.holds(h),
        ensures
            r@ == render_node(self.node(h), registry.entries()),
    {
        let ghost es = registry.entries();
        let mut s = String::new();
        match self.node_ref(h) {
            ParamNode::Bool(v) => {
                push_str_part(&mut s, "param bool (");
                if *v {
                    push_str_part(&mut s, "true");
                } else {
                    push_str_part(&mut s, "false");
                }
                push_str_part(&mut s, ")");
                proof {
                    assert(s@ =~= render_node(self.node(h), es));
                }
            },
            ParamNode::I8(v) => {
                push_str_part(&mut s, "param i8 (");
                push_dec_signed(&mut s, *v as i64);
                push_str_part(&mut s, ")");
                proof {
                    assert(s@ =~= render_node(self.node(h), es));
                }
            },
            ParamNode::U8(v) => {
                push_str_part(&mut s, "param u8 (");
                push_dec(&mut s, *v as u64);
                push_str_part(&mut s, ")");
                proof {
                    assert(s@ =~= render_node(self.node(h), es));
                }
            },
            ParamNode::I16(v) => {
                push_str_part(&mut s, "param i16 (");
                push_dec_signed(&mut s, *v as i64);
                push_str_part(&mut s, ")");
                proof {
                    assert(s@ =~= render_node(self.node(h), es));
                }
            },
            ParamNode::U16(v) => {
                push_str_part(&mut s, "param u16 (");
                push_dec(&mut s, *v as u64);
                push_str_part(&mut s, ")");
                proof {
                    assert(s@ =~= render_node(self.node(h), es));
                }
            },
            ParamNode::I32(v) => {
                push_str_part(&mut s, "param i32 (");
                push_dec_signed(&mut s, *v as i64);
                push_str_part(&mut s, ")");
                proof {
                    assert(s@ =~= render_node(self.node(h), es));
                }
            },
            ParamNode::U32(v) => {
                push_str_part(&mut s, "param u32 (");
                push_dec(&mut s, *v as u64);
                push_str_part(&mut s, ")");
                proof {
                    assert(s@ =~= render_node(self.node(h), es));
                }
            },
            ParamNode::FloatBits(v) => {
                push_str_part(&mut s, "param float (bits 0x");
                push_hex_fixed(&mut s, *v as u64, 8);
                push_str_part(&mut s, ")");
                proof {
                    assert(s@ =~= render_node(self.node(h), es));
                }
            },
            ParamNode::Hash(v) => {
                push_str_part(&mut s, "param hash (");
                let inner = v.render(registry);
                push_str_part(&mut s, inner.as_str());
                push_str_part(&mut s, ")");
                proof {
                    assert(s@ =~= render_node(self.node(h), es));
                }
            },
            ParamNode::Str(v) => {
                push_str_part(&mut s, "param str (");
                push_str_part(&mut s, v.as_str());
                push_str_part(&mut s, ")");
                proof {
                    assert(s@ =~= render_node(self.node(h), es));
                }
            },
            ParamNode::List(v) => {
                push_str_part(&mut s, "param list (len = ");
                push_dec(&mut s, v.len() as u64);
                push_str_part(&mut s, ")");
                proof {
                    assert(s@ =~= render_node(self.node(h), es));
                }
            },
            ParamNode::Struct(v) => {
                push_str_part(&mut s, "param struct (len = ");
                push_dec(&mut s, v.len() as u64);
                push_str_part(&mut s, ")");
                proof {
                    assert(s@ =~= render_node(self.node(h), es));
                }
            },
        }
        s
    }
}

} // verus!
