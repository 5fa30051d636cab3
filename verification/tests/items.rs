use craftrs_level::item::{Enchant, Item, Itemstack};

#[derive(Debug, Clone, Copy, PartialEq)]
struct Pickaxe;

impl Item for Pickaxe {
    fn id(&self) -> u16 {
        257
    }

    fn from_id(id: u16) -> Option<Self> {
        if id == 257 {
            Some(Pickaxe)
        } else {
            None
        }
    }

    fn name(&self) -> &'static str {
        "iron_pickaxe"
    }

    fn from_name(name: &str) -> Option<Self> {
        if name == "iron_pickaxe" {
            Some(Pickaxe)
        } else {
            None
        }
    }

    fn display_name(&self) -> &'static str {
        "Iron Pickaxe"
    }

    fn stack_size(&self) -> u32 {
        1
    }

    fn durability(&self) -> Option<u16> {
        Some(250)
    }
}

#[derive(Debug, Clone, Copy)]
struct NoEnchant;

impl Enchant for NoEnchant {}

#[test]
fn itemstack_new_holds_item_and_count() {
    let stack: Itemstack<Pickaxe, NoEnchant> = Itemstack::new(Pickaxe, 1);
    assert_eq!(stack.item, Pickaxe);
    assert_eq!(stack.count, 1);
    assert!(stack.meta.is_none());
    assert_eq!(Pickaxe::from_id(257), Some(Pickaxe));
    assert_eq!(Pickaxe::from_id(3), None);
    assert_eq!(stack.item.name(), "iron_pickaxe");
}
