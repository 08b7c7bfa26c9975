# polished_boot

The decisions of a boot chain for x86_64, verified with Verus, and the glue that
carries them out.

`src/` is the verified library.

- `frames`: the physical frames that can be handed out.
- `page_table`: one page table of the `x86_64` crate, and its entry operations.
- `mmu`: how the processor walks page tables.
- `paging`: four-level page tables under construction, kept a tree.
- `kernel_space`: the address space that the kernel starts in.
- `lower_half`: taking the firmware's identity mappings out again.
- `elf`, `loader`: reading an ELF file, and where its segments go.
- `address`: canonical addresses and pages.
- `memory_map`: what is read from the firmware's memory map.
- `boot`: the framebuffer, and what the kernel is told.
- `interrupts`: vectors, and the answers to hardware interrupts.
- `line`: the text of an answer, without a heap.

What is taken on trust is stated above the item that does so: the entry
operations of `PageTable`, the address types of `x86_64`, the header accessors
of `xmas_elf`, and the memory type of `uefi`.

`app/` holds what needs the machine: firmware calls, control registers, raw
memory, interrupt entries, and the kernel's entry point.

`tests/` runs the library on concrete values.
